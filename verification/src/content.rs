//! Content packs: portable sets of campaign pages that can be exported from
//! one wiki and applied to another without overwriting local edits.
//!
//! The database work (looking pages up, writing them, recording which hash a
//! pack last applied) is done by the caller; this module validates packs,
//! hashes pages, decides conflicts, and decides what applying each page does.
use vstd::prelude::*;
use vstd::utf8::encode_utf8;
use crate::models::{Page, PageForm, is_content_type, valid_type};
use crate::text::{
    chars_of, decimal, decimal_of, hex_lower, hex_of, is_blank, lowercase, push_chars, push_str,
    string_of, to_lower, trim, join,
};
use crate::encode::{json_quote, json_string, sha256, sha256_digest};

verus! {

/// The content pack format this wiki reads and writes.
pub const CONTENT_PACK_FORMAT: u32 = 1;

/// A named set of pages.
#[derive(Debug)]
pub struct ContentPack {
    pub format: u32,
    pub pack: String,
    pub pages: Vec<ContentPage>,
}

/// One page of a content pack.
#[derive(Debug)]
pub struct ContentPage {
    pub title: String,
    pub slug: String,
    pub body_html: String,
    pub content_type: String,
    pub is_gm_secret: bool,
}

impl Clone for ContentPage {
    fn clone(&self) -> (r: Self)
        ensures
            r == *self,
    {
        ContentPage {
            title: self.title.clone(),
            slug: self.slug.clone(),
            body_html: self.body_html.clone(),
            content_type: self.content_type.clone(),
            is_gm_secret: self.is_gm_secret,
        }
    }
}

/// How many pages applying a pack created, updated, and left unchanged.
#[derive(Debug, PartialEq, Eq, Structural, Clone, Copy)]
pub struct ApplyReport {
    pub created: usize,
    pub updated: usize,
    pub unchanged: usize,
}

impl Default for ApplyReport {
    fn default() -> (r: Self)
        ensures
            r.created == 0 && r.updated == 0 && r.unchanged == 0,
    {
        ApplyReport { created: 0, updated: 0, unchanged: 0 }
    }
}

// ---------------------------------------------------------------------------
// Validation
// ---------------------------------------------------------------------------

/// Lowercased slugs of the first `n` pages.
pub open spec fn slug_keys(pages: Seq<ContentPage>, n: int) -> Seq<Seq<char>> {
    pages.take(n).map_values(|p: ContentPage| lowercase(p.slug@))
}

/// Lowercased titles of the first `n` pages.
pub open spec fn title_keys_upto(pages: Seq<ContentPage>, n: int) -> Seq<Seq<char>> {
    pages.take(n).map_values(|p: ContentPage| lowercase(p.title@))
}

/// What is wrong with page `i` of a pack whose earlier pages are all fine.
pub open spec fn page_problem(pages: Seq<ContentPage>, i: int) -> Option<Seq<char>> {
    let p = pages[i];
    if trim(p.title@).len() == 0 || trim(p.slug@).len() == 0 {
        Some("content pages require a title and slug"@)
    } else if !is_content_type(p.content_type@) {
        Some(p.slug@ + " has invalid content type"@)
    } else if slug_keys(pages, i).contains(lowercase(p.slug@)) {
        Some("duplicate slug in pack: "@ + p.slug@)
    } else if title_keys_upto(pages, i).contains(lowercase(p.title@)) {
        Some("duplicate title in pack: "@ + p.title@)
    } else {
        None
    }
}

/// The problem of the first faulty page among the first `n`.
pub open spec fn first_problem(pages: Seq<ContentPage>, n: int) -> Option<Seq<char>>
    decreases n,
{
    if n <= 0 {
        None
    } else {
        match first_problem(pages, n - 1) {
            Some(m) => Some(m),
            None => page_problem(pages, n - 1),
        }
    }
}

proof fn lemma_first_problem_stable(pages: Seq<ContentPage>, k: int, n: int)
    requires
        0 <= k <= n,
        first_problem(pages, k) is Some,
    ensures
        first_problem(pages, n) == first_problem(pages, k),
    decreases n - k,
{
    if k < n {
        lemma_first_problem_stable(pages, k, n - 1);
    }
}

/// Why a pack is invalid, if it is: a format other than this wiki's, a blank
/// name, or a page without title or slug, with an unknown content type, or
/// whose slug or title repeats an earlier page's ignoring case.
pub open spec fn pack_problem(pack: ContentPack) -> Option<Seq<char>> {
    if pack.format != 1 {
        Some("unsupported content pack format "@ + decimal(pack.format as nat) + "; expected 1"@)
    } else if trim(pack.pack@).len() == 0 {
        Some("content pack name cannot be empty"@)
    } else {
        first_problem(pack.pages@, pack.pages@.len() as int)
    }
}

/// Whether `key` is one of the keys.
fn contains_key(keys: &Vec<Vec<char>>, key: &Vec<char>) -> (b: bool)
    ensures
        b == keys@.map_values(|k: Vec<char>| k@).contains(key@),
{
    let ghost ks = keys@.map_values(|k: Vec<char>| k@);
    let mut i: usize = 0;
    while i < keys.len()
        invariant
            0 <= i <= keys.len(),
            ks == keys@.map_values(|k: Vec<char>| k@),
            forall|k: int| 0 <= k < i ==> ks[k] != key@,
        decreases keys.len() - i,
    {
        if crate::text::chars_eq(&keys[i], key) {
            assert(ks[i as int] == key@);
            return true;
        }
        i = i + 1;
    }
    false
}

/// Checks a pack before it touches the database: its format, its name, and
/// each page's title, slug and content type, with no slug or title repeated
/// ignoring case.  The error is the message for the first problem found.
pub fn validate_pack(pack: &ContentPack) -> (r: Result<(), String>)
    ensures
        match r {
            Ok(()) => pack_problem(*pack) is None,
            Err(m) => pack_problem(*pack) == Some(m@),
        },
{
    if pack.format != CONTENT_PACK_FORMAT {
        let mut out: Vec<char> = Vec::new();
        push_str(&mut out, "unsupported content pack format ");
        let d = decimal_of(pack.format as u64);
        push_chars(&mut out, &d);
        push_str(&mut out, "; expected 1");
        return Err(string_of(&out));
    }
    if is_blank(pack.pack.as_str()) {
        return Err("content pack name cannot be empty".to_owned());
    }
    let ghost pages = pack.pages@;
    let mut slugs: Vec<Vec<char>> = Vec::new();
    let mut titles: Vec<Vec<char>> = Vec::new();
    let mut i: usize = 0;
    while i < pack.pages.len()
        invariant
            0 <= i <= pack.pages.len(),
            pages == pack.pages@,
            pack.format == 1,
            trim(pack.pack@).len() > 0,
            first_problem(pages, i as int) is None,
            slugs@.map_values(|k: Vec<char>| k@) == slug_keys(pages, i as int),
            titles@.map_values(|k: Vec<char>| k@) == title_keys_upto(pages, i as int),
        decreases pack.pages.len() - i,
    {
        let page = &pack.pages[i];
        assert(first_problem(pages, i + 1) == page_problem(pages, i as int));
        proof {
            if page_problem(pages, i as int) is Some {
                lemma_first_problem_stable(pages, i + 1, pages.len() as int);
            }
        }
        if is_blank(page.title.as_str()) || is_blank(page.slug.as_str()) {
            return Err("content pages require a title and slug".to_owned());
        }
        if !valid_type(page.content_type.as_str()) {
            let mut out = chars_of(page.slug.as_str());
            push_str(&mut out, " has invalid content type");
            return Err(string_of(&out));
        }
        let skey = chars_of(to_lower(page.slug.as_str()).as_str());
        if contains_key(&slugs, &skey) {
            let mut out = chars_of("duplicate slug in pack: ");
            push_str(&mut out, page.slug.as_str());
            return Err(string_of(&out));
        }
        let tkey = chars_of(to_lower(page.title.as_str()).as_str());
        if contains_key(&titles, &tkey) {
            let mut out = chars_of("duplicate title in pack: ");
            push_str(&mut out, page.title.as_str());
            return Err(string_of(&out));
        }
        let ghost s0 = slugs@;
        let ghost t0 = titles@;
        slugs.push(skey);
        titles.push(tkey);
        proof {
            assert(pages.take(i + 1) == pages.take(i as int).push(pages[i as int]));
            assert(slugs@.map_values(|k: Vec<char>| k@) =~= s0.map_values(|k: Vec<char>| k@).push(
                lowercase(pages[i as int].slug@),
            ));
            assert(titles@.map_values(|k: Vec<char>| k@) =~= t0.map_values(|k: Vec<char>| k@).push(
                lowercase(pages[i as int].title@),
            ));
        }
        i = i + 1;
    }
    Ok(())
}

// ---------------------------------------------------------------------------
// Page hashes
// ---------------------------------------------------------------------------

/// The compact JSON object serde_json writes for a content page (fields in
/// declaration order).
pub open spec fn page_json(p: ContentPage) -> Seq<char> {
    "{\"title\":"@ + json_quote(p.title@) + ",\"slug\":"@ + json_quote(p.slug@)
        + ",\"body_html\":"@ + json_quote(p.body_html@) + ",\"content_type\":"@ + json_quote(
        p.content_type@,
    ) + ",\"is_gm_secret\":"@ + (if p.is_gm_secret {
        "true"@
    } else {
        "false"@
    }) + "}"@
}

/// The hash of a content page: lowercase hex of the SHA-256 of its JSON.
pub open spec fn content_hash(p: ContentPage) -> Seq<char> {
    hex_lower(sha256(encode_utf8(page_json(p))))
}

/// The content-page view of a stored page.
pub open spec fn as_content(page: Page) -> ContentPage {
    ContentPage {
        title: page.title,
        slug: page.slug,
        body_html: page.body_html,
        content_type: page.content_type,
        is_gm_secret: page.is_gm_secret,
    }
}

/// Appends a JSON string literal of `s`.
fn push_json(out: &mut Vec<char>, s: &str) -> (r: Result<(), serde_json::Error>)
    ensures
        r is Ok,
        final(out)@ == old(out)@ + json_quote(s@),
{
    let j = json_string(s)?;
    push_str(out, j.as_str());
    Ok(())
}

/// The hash that identifies a content page's content.
pub fn page_hash(page: &ContentPage) -> (r: Result<String, serde_json::Error>)
    ensures
        r is Ok,
        r matches Ok(h) ==> h@ == content_hash(*page),
        r matches Ok(h) ==> h@.len() == 64,
{
    let mut out: Vec<char> = Vec::new();
    push_str(&mut out, "{\"title\":");
    push_json(&mut out, page.title.as_str())?;
    push_str(&mut out, ",\"slug\":");
    push_json(&mut out, page.slug.as_str())?;
    push_str(&mut out, ",\"body_html\":");
    push_json(&mut out, page.body_html.as_str())?;
    push_str(&mut out, ",\"content_type\":");
    push_json(&mut out, page.content_type.as_str())?;
    push_str(&mut out, ",\"is_gm_secret\":");
    if page.is_gm_secret {
        push_str(&mut out, "true");
    } else {
        push_str(&mut out, "false");
    }
    push_str(&mut out, "}");
    let json = string_of(&out);
    let bytes = json.as_str().as_bytes();
    let digest = sha256_digest(bytes);
    let hex = hex_of(&digest);
    Ok(string_of(&hex))
}

/// The hash of a stored page's content.
pub fn stored_page_hash(page: &Page) -> (r: Result<String, serde_json::Error>)
    ensures
        r is Ok,
        r matches Ok(h) ==> h@ == content_hash(as_content(*page)),
        r matches Ok(h) ==> h@.len() == 64,
{
    page_hash(
        &ContentPage {
            title: page.title.clone(),
            slug: page.slug.clone(),
            body_html: page.body_html.clone(),
            content_type: page.content_type.clone(),
            is_gm_secret: page.is_gm_secret,
        },
    )
}

/// The hash of a page, the hashing being one that cannot fail.
fn hash_of(page: &ContentPage) -> (h: String)
    ensures
        h@ == content_hash(*page),
{
    match page_hash(page) {
        Ok(h) => h,
        Err(_) => {
            proof {
                assert(false);
            }
            String::new()
        },
    }
}

fn stored_hash_of(page: &Page) -> (h: String)
    ensures
        h@ == content_hash(as_content(*page)),
{
    match stored_page_hash(page) {
        Ok(h) => h,
        Err(_) => {
            proof {
                assert(false);
            }
            String::new()
        },
    }
}

// ---------------------------------------------------------------------------
// Conflicts
// ---------------------------------------------------------------------------

/// What the database holds that bears on one incoming page.
#[derive(Debug)]
pub struct PageFacts {
    /// The page with the incoming slug, archived or not.
    pub current: Option<Page>,
    /// The hash this pack recorded when it last applied the slug.
    pub last_hash: Option<String>,
    /// Whether another unarchived page has the incoming title (ignoring case);
    /// for a new slug, that page's slug.
    pub title_owner: Option<String>,
}

/// Which title lookup the caller must make for an incoming page.
#[derive(Debug, PartialEq, Eq, Structural, Clone, Copy)]
pub enum TitleCheck {
    /// None: the page is reported as archived.
    Skip,
    /// Unarchived pages with the title other than the page with this id.
    OtherThan(i64),
    /// Any unarchived page with the title.
    Any,
}

/// The title lookup an incoming page needs, given the page now at its slug.
pub fn title_check(current: &Option<Page>, force: bool) -> (r: TitleCheck)
    ensures
        r == match current {
            Some(p) => if p.archived_at is Some && !force {
                TitleCheck::Skip
            } else {
                TitleCheck::OtherThan(p.id)
            },
            None => TitleCheck::Any,
        },
{
    match current {
        Some(p) => {
            if p.archived_at.is_some() && !force {
                TitleCheck::Skip
            } else {
                TitleCheck::OtherThan(p.id)
            }
        },
        None => TitleCheck::Any,
    }
}

/// The conflict an incoming page has with the database, if any: its slug is
/// archived (unless forced); its title belongs to another page; or the stored
/// page was edited since the pack last applied it and differs from the
/// incoming page (unless forced).
pub open spec fn page_conflict(incoming: ContentPage, facts: PageFacts, force: bool) -> Option<
    Seq<char>,
> {
    match facts.current {
        Some(page) => if page.archived_at is Some && !force {
            Some(incoming.slug@ + " is archived"@)
        } else if facts.title_owner is Some {
            Some(incoming.slug@ + " has a title owned by another page"@)
        } else {
            let current_hash = content_hash(as_content(page));
            let locally_changed = match facts.last_hash {
                Some(h) => h@ != current_hash,
                None => true,
            };
            if locally_changed && current_hash != content_hash(incoming) && !force {
                Some(incoming.slug@ + " has local changes"@)
            } else {
                None
            }
        },
        None => match facts.title_owner {
            Some(slug) => Some(incoming.slug@ + " conflicts with title owned by slug "@ + slug@),
            None => None,
        },
    }
}

/// The conflicts of the first `n` incoming pages, in order.
pub open spec fn pack_conflicts(
    pages: Seq<ContentPage>,
    facts: Seq<PageFacts>,
    force: bool,
    n: int,
) -> Seq<Seq<char>>
    decreases n,
{
    if n <= 0 {
        Seq::empty()
    } else {
        let prev = pack_conflicts(pages, facts, force, n - 1);
        match page_conflict(pages[n - 1], facts[n - 1], force) {
            Some(c) => prev.push(c),
            None => prev,
        }
    }
}

/// The message listing a pack's conflicts.
pub open spec fn conflict_message(conflicts: Seq<Seq<char>>) -> Seq<char> {
    "content pack has conflicts:\n  - "@ + join(conflicts, "\n  - "@)
        + "\nRe-run with --force only after reviewing them."@
}

/// The outcome of checking a pack against what the database holds.
pub open spec fn check_outcome(pack: ContentPack, facts: Seq<PageFacts>, force: bool) -> Option<
    Seq<char>,
> {
    match pack_problem(pack) {
        Some(m) => Some(m),
        None => {
            let cs = pack_conflicts(pack.pages@, facts, force, pack.pages@.len() as int);
            if cs.len() == 0 {
                None
            } else {
                Some(conflict_message(cs))
            }
        },
    }
}

/// The conflict of one incoming page.
pub fn conflict_for(incoming: &ContentPage, facts: &PageFacts, force: bool) -> (r: Option<String>)
    ensures
        match r {
            Some(m) => page_conflict(*incoming, *facts, force) == Some(m@),
            None => page_conflict(*incoming, *facts, force) is None,
        },
{
    match &facts.current {
        Some(page) => {
            if page.archived_at.is_some() && !force {
                let mut out = chars_of(incoming.slug.as_str());
                push_str(&mut out, " is archived");
                return Some(string_of(&out));
            }
            if facts.title_owner.is_some() {
                let mut out = chars_of(incoming.slug.as_str());
                push_str(&mut out, " has a title owned by another page");
                return Some(string_of(&out));
            }
            let current_hash = stored_hash_of(page);
            let incoming_hash = hash_of(incoming);
            let locally_changed = match &facts.last_hash {
                Some(h) => *h != current_hash,
                None => true,
            };
            if locally_changed && current_hash != incoming_hash && !force {
                let mut out = chars_of(incoming.slug.as_str());
                push_str(&mut out, " has local changes");
                Some(string_of(&out))
            } else {
                None
            }
        },
        None => match &facts.title_owner {
            Some(slug) => {
                let mut out = chars_of(incoming.slug.as_str());
                push_str(&mut out, " conflicts with title owned by slug ");
                push_str(&mut out, slug.as_str());
                Some(string_of(&out))
            },
            None => None,
        },
    }
}

/// Checks a pack against what the database holds for each of its pages
/// (`facts[i]` for `pack.pages[i]`): the pack must be valid, and no page may
/// conflict.  The error lists every conflict.
pub fn check_pack(pack: &ContentPack, facts: &Vec<PageFacts>, force: bool) -> (r: Result<(), String>)
    requires
        facts@.len() == pack.pages@.len(),
    ensures
        match r {
            Ok(()) => check_outcome(*pack, facts@, force) is None,
            Err(m) => check_outcome(*pack, facts@, force) == Some(m@),
        },
{
    validate_pack(pack)?;
    let ghost pages = pack.pages@;
    let mut conflicts: Vec<String> = Vec::new();
    let mut i: usize = 0;
    while i < pack.pages.len()
        invariant
            0 <= i <= pack.pages.len(),
            pages == pack.pages@,
            facts@.len() == pages.len(),
            conflicts@.map_values(|c: String| c@) == pack_conflicts(pages, facts@, force, i as int),
        decreases pack.pages.len() - i,
    {
        let ghost c0 = conflicts@;
        match conflict_for(&pack.pages[i], &facts[i], force) {
            Some(c) => {
                conflicts.push(c);
                assert(conflicts@.map_values(|x: String| x@) =~= c0.map_values(|x: String| x@).push(
                    conflicts@.last()@,
                ));
            },
            None => {},
        }
        i = i + 1;
    }
    if conflicts.len() == 0 {
        return Ok(());
    }
    let mut out = chars_of("content pack has conflicts:\n  - ");
    let ghost cs = conflicts@.map_values(|c: String| c@);
    let mut k: usize = 0;
    let mut joined: Vec<char> = Vec::new();
    while k < conflicts.len()
        invariant
            0 <= k <= conflicts.len(),
            cs == conflicts@.map_values(|c: String| c@),
            joined@ == join(cs.take(k as int), "\n  - "@),
        decreases conflicts.len() - k,
    {
        assert(cs.take(k + 1).drop_last() == cs.take(k as int));
        assert(cs.take(k + 1).last() == conflicts@[k as int]@);
        if k > 0 {
            push_str(&mut joined, "\n  - ");
        } else {
            assert(cs.take(k as int) =~= Seq::<Seq<char>>::empty());
        }
        push_str(&mut joined, conflicts[k].as_str());
        k = k + 1;
    }
    assert(cs.take(conflicts.len() as int) == cs);
    push_chars(&mut out, &joined);
    push_str(&mut out, "\nRe-run with --force only after reviewing them.");
    Err(string_of(&out))
}

// ---------------------------------------------------------------------------
// Applying
// ---------------------------------------------------------------------------

/// What applying one incoming page does to the database.
#[derive(Debug)]
pub enum PackAction {
    /// Create a page from the form.
    Create(PageForm),
    /// Update the page with this id from the form.
    Update(i64, PageForm),
    /// Leave the page as it is.
    Unchanged,
}

/// One incoming page's step: the archived page to restore first (if any),
/// the action, and the hash to record for the page.
#[derive(Debug)]
pub struct PackStep {
    pub restore: Option<i64>,
    pub action: PackAction,
    pub hash: String,
}

/// A form carries an incoming page's fields.
pub open spec fn form_matches(form: PageForm, incoming: ContentPage, summary: Seq<char>) -> bool {
    &&& form.title@ == incoming.title@
    &&& form.slug@ == incoming.slug@
    &&& form.body_html@ == incoming.body_html@
    &&& form.content_type@ == incoming.content_type@
    &&& form.is_gm_secret == incoming.is_gm_secret
    &&& form.edit_summary@ == summary
}

/// What applying an incoming page does, given the page now at its slug: an
/// archived page is restored first; a page whose content hash equals the
/// incoming one is left unchanged, any other is updated; a missing page is
/// created.  The report counts the outcome.
pub open spec fn step_ok(
    pack_name: Seq<char>,
    incoming: ContentPage,
    existing: Option<Page>,
    report: ApplyReport,
    step: PackStep,
    next: ApplyReport,
) -> bool {
    &&& step.hash@ == content_hash(incoming)
    &&& match existing {
        Some(page) => {
            &&& step.restore == (if page.archived_at is Some {
                Some(page.id)
            } else {
                None::<i64>
            })
            &&& if content_hash(as_content(page)) == content_hash(incoming) {
                &&& step.action is Unchanged
                &&& next == ApplyReport { unchanged: (report.unchanged + 1) as usize, ..report }
            } else {
                &&& step.action matches PackAction::Update(id, form) && id == page.id
                    && form_matches(form, incoming, "Applied content pack "@ + pack_name)
                &&& next == ApplyReport { updated: (report.updated + 1) as usize, ..report }
            }
        },
        None => {
            &&& step.restore is None
            &&& step.action matches PackAction::Create(form) && form_matches(
                form,
                incoming,
                "Created by content pack "@ + pack_name,
            )
            &&& next == ApplyReport { created: (report.created + 1) as usize, ..report }
        },
    }
}

fn form_for(incoming: &ContentPage, prefix: &str, pack_name: &str) -> (f: PageForm)
    ensures
        form_matches(f, *incoming, prefix@ + pack_name@),
{
    let mut summary = chars_of(prefix);
    push_str(&mut summary, pack_name);
    PageForm {
        title: incoming.title.clone(),
        slug: incoming.slug.clone(),
        body_html: incoming.body_html.clone(),
        content_type: incoming.content_type.clone(),
        is_gm_secret: incoming.is_gm_secret,
        edit_summary: string_of(&summary),
    }
}

/// Decides what applying one incoming page of the pack `pack_name` does,
/// given the page the database holds at its slug, and counts it in the report.
pub fn apply_step(
    pack_name: &str,
    incoming: &ContentPage,
    existing: &Option<Page>,
    report: ApplyReport,
) -> (r: (PackStep, ApplyReport))
    requires
        report.created < usize::MAX,
        report.updated < usize::MAX,
        report.unchanged < usize::MAX,
    ensures
        step_ok(pack_name@, *incoming, *existing, report, r.0, r.1),
{
    let incoming_hash = hash_of(incoming);
    match existing {
        Some(page) => {
            let restore = if page.archived_at.is_some() {
                Some(page.id)
            } else {
                None
            };
            let current = stored_hash_of(page);
            if current == incoming_hash {
                (
                    PackStep { restore, action: PackAction::Unchanged, hash: incoming_hash },
                    ApplyReport { unchanged: report.unchanged + 1, ..report },
                )
            } else {
                let form = form_for(incoming, "Applied content pack ", pack_name);
                (
                    PackStep { restore, action: PackAction::Update(page.id, form), hash: incoming_hash },
                    ApplyReport { updated: report.updated + 1, ..report },
                )
            }
        },
        None => {
            let form = form_for(incoming, "Created by content pack ", pack_name);
            (
                PackStep { restore: None, action: PackAction::Create(form), hash: incoming_hash },
                ApplyReport { created: report.created + 1, ..report },
            )
        },
    }
}

/// A pack made from the wiki's pages (the caller passes the unarchived pages
/// other than session notes, in the order to export).
pub fn export_pack(pages: &Vec<Page>, pack_name: &str) -> (r: ContentPack)
    ensures
        r.format == 1,
        r.pack@ == pack_name@,
        r.pages@ == pages@.map_values(|p: Page| as_content(p)),
{
    let mut out: Vec<ContentPage> = Vec::new();
    let mut i: usize = 0;
    while i < pages.len()
        invariant
            0 <= i <= pages.len(),
            out@ == pages@.take(i as int).map_values(|p: Page| as_content(p)),
        decreases pages.len() - i,
    {
        let p = &pages[i];
        out.push(
            ContentPage {
                title: p.title.clone(),
                slug: p.slug.clone(),
                body_html: p.body_html.clone(),
                content_type: p.content_type.clone(),
                is_gm_secret: p.is_gm_secret,
            },
        );
        assert(pages@.take(i + 1) == pages@.take(i as int).push(pages@[i as int]));
        assert(out@ =~= pages@.take(i + 1).map_values(|p: Page| as_content(p)));
        i = i + 1;
    }
    assert(pages@.take(pages.len() as int) == pages@);
    ContentPack { format: CONTENT_PACK_FORMAT, pack: string_of(&chars_of(pack_name)), pages: out }
}

// ---------------------------------------------------------------------------
// Laws
// ---------------------------------------------------------------------------

/// A stored page holds exactly an incoming page's content.
pub open spec fn same_content(page: Page, incoming: ContentPage) -> bool {
    &&& page.title@ == incoming.title@
    &&& page.slug@ == incoming.slug@
    &&& page.body_html@ == incoming.body_html@
    &&& page.content_type@ == incoming.content_type@
    &&& page.is_gm_secret == incoming.is_gm_secret
}

/// Law: applying a pack again changes nothing; a page that already holds the
/// incoming content is left unchanged and counted as such.
pub proof fn law_reapply_is_unchanged(
    pack_name: Seq<char>,
    incoming: ContentPage,
    page: Page,
    report: ApplyReport,
    step: PackStep,
    next: ApplyReport,
)
    requires
        same_content(page, incoming),
        report.unchanged < usize::MAX,
        step_ok(pack_name, incoming, Some(page), report, step, next),
    ensures
        step.action is Unchanged,
        next.unchanged == report.unchanged + 1,
        next.created == report.created,
        next.updated == report.updated,
{
    assert(page_json(as_content(page)) == page_json(incoming));
}

/// Law: a page that already holds the incoming content is never a conflict
/// unless it is archived or another page owns its title.
pub proof fn law_same_content_no_conflict(incoming: ContentPage, facts: PageFacts, force: bool)
    requires
        facts.current matches Some(page) && same_content(page, incoming) && page.archived_at is None,
        facts.title_owner is None,
    ensures
        page_conflict(incoming, facts, force) is None,
{
    let page = facts.current->Some_0;
    assert(page_json(as_content(page)) == page_json(incoming));
}

proof fn lemma_force_keeps_no_conflicts(
    pages: Seq<ContentPage>,
    facts: Seq<PageFacts>,
    n: int,
)
    requires
        pack_conflicts(pages, facts, false, n).len() == 0,
    ensures
        pack_conflicts(pages, facts, true, n).len() == 0,
    decreases n,
{
    if n > 0 {
        lemma_conflicts_grow(pages, facts, false, n - 1);
        lemma_force_keeps_no_conflicts(pages, facts, n - 1);
    }
}

/// Law: `force` never adds a conflict: a pack whose check passes without
/// `force` also passes with it, against the same database.
pub proof fn law_force_never_adds_conflicts(pack: ContentPack, facts: Seq<PageFacts>)
    requires
        check_outcome(pack, facts, false) is None,
    ensures
        check_outcome(pack, facts, true) is None,
{
    if pack_problem(pack) is None {
        lemma_force_keeps_no_conflicts(pack.pages@, facts, pack.pages@.len() as int);
    }
}

/// Law: with `force`, the only conflicts left are titles owned by other pages.
pub proof fn law_force_leaves_title_conflicts(incoming: ContentPage, facts: PageFacts)
    ensures
        page_conflict(incoming, facts, true) is Some ==> facts.title_owner is Some,
{
}

proof fn lemma_no_conflicts(pages: Seq<ContentPage>, facts: Seq<PageFacts>, force: bool, n: int, i: int)
    requires
        0 <= i < n,
        pack_conflicts(pages, facts, force, n).len() == 0,
    ensures
        page_conflict(pages[i], facts[i], force) is None,
    decreases n,
{
    if i < n - 1 {
        lemma_no_conflicts(pages, facts, force, n - 1, i);
    }
    if n > 0 {
        lemma_conflicts_grow(pages, facts, force, n - 1);
    }
}

proof fn lemma_conflicts_grow(pages: Seq<ContentPage>, facts: Seq<PageFacts>, force: bool, n: int)
    ensures
        pack_conflicts(pages, facts, force, n).len() <= pack_conflicts(pages, facts, force, n + 1).len(),
{
}

/// Law: a check that passes without `force` never lets a page edited since
/// the pack last applied it be overwritten: every existing page either
/// already holds the incoming content or is exactly as the pack left it.
pub proof fn law_check_protects_local_edits(pack: ContentPack, facts: Seq<PageFacts>, i: int)
    requires
        facts.len() == pack.pages@.len(),
        check_outcome(pack, facts, false) is None,
        0 <= i < pack.pages@.len(),
        facts[i].current is Some,
    ensures
        ({
            let page = facts[i].current->Some_0;
            &&& page.archived_at is None
            &&& facts[i].title_owner is None
            &&& content_hash(as_content(page)) == content_hash(pack.pages@[i]) || (facts[i].last_hash
                matches Some(h) && h@ == content_hash(as_content(page)))
        }),
{
    lemma_no_conflicts(pack.pages@, facts, false, pack.pages@.len() as int, i);
}

proof fn lemma_first_problem_none(pages: Seq<ContentPage>, n: int, i: int)
    requires
        0 <= i < n,
        first_problem(pages, n) is None,
    ensures
        page_problem(pages, i) is None,
    decreases n,
{
    if i < n - 1 {
        lemma_first_problem_none(pages, n - 1, i);
    }
}

/// Law: a valid pack has non-blank titles and slugs, known content types, and
/// no slug or title repeated ignoring case.
pub proof fn law_valid_pack(pack: ContentPack)
    requires
        pack_problem(pack) is None,
    ensures
        pack.format == CONTENT_PACK_FORMAT,
        trim(pack.pack@).len() > 0,
        forall|i: int|
            0 <= i < pack.pages@.len() ==> trim((#[trigger] pack.pages@[i]).title@).len() > 0
                && trim(pack.pages@[i].slug@).len() > 0 && is_content_type(
                pack.pages@[i].content_type@,
            ),
        forall|i: int, j: int|
            0 <= i < j < pack.pages@.len() ==> lowercase((#[trigger] pack.pages@[i]).slug@)
                != lowercase((#[trigger] pack.pages@[j]).slug@) && lowercase(pack.pages@[i].title@)
                != lowercase(pack.pages@[j].title@),
{
    let pages = pack.pages@;
    let n = pages.len() as int;
    assert forall|i: int| 0 <= i < n implies trim((#[trigger] pages[i]).title@).len() > 0 && trim(
        pages[i].slug@,
    ).len() > 0 && is_content_type(pages[i].content_type@) by {
        lemma_first_problem_none(pages, n, i);
    }
    assert forall|i: int, j: int| 0 <= i < j < n implies lowercase((#[trigger] pages[i]).slug@)
        != lowercase((#[trigger] pages[j]).slug@) && lowercase(pages[i].title@) != lowercase(
        pages[j].title@,
    ) by {
        lemma_first_problem_none(pages, n, j);
        assert(pages.take(j)[i] == pages[i]);
        assert(slug_keys(pages, j)[i] == lowercase(pages[i].slug@));
        assert(title_keys_upto(pages, j)[i] == lowercase(pages[i].title@));
    }
}

/// The report after `k` more pages were left unchanged.
pub open spec fn counted_unchanged(report: ApplyReport, k: int) -> ApplyReport {
    ApplyReport { unchanged: (report.unchanged + k) as usize, ..report }
}

/// A step that restores nothing and leaves its page as it is.
pub open spec fn unchanged_step(step: PackStep) -> bool {
    step.action is Unchanged && step.restore is None
}

/// An incoming page has no conflict.
pub open spec fn no_conflict(incoming: ContentPage, facts: PageFacts, force: bool) -> bool {
    page_conflict(incoming, facts, force) is None
}

proof fn lemma_all_unchanged(
    pack_name: Seq<char>,
    pages: Seq<ContentPage>,
    stored: Seq<Page>,
    steps: Seq<PackStep>,
    reports: Seq<ApplyReport>,
    k: int,
)
    requires
        stored.len() == pages.len(),
        steps.len() == pages.len(),
        reports.len() == pages.len() + 1,
        reports[0].unchanged + pages.len() <= usize::MAX,
        forall|i: int|
            0 <= i < pages.len() ==> same_content(#[trigger] stored[i], pages[i])
                && stored[i].archived_at is None,
        forall|i: int|
            0 <= i < pages.len() ==> step_ok(
                pack_name,
                pages[i],
                Some(stored[i]),
                reports[i],
                #[trigger] steps[i],
                reports[i + 1],
            ),
        0 <= k <= pages.len(),
    ensures
        reports[k] == counted_unchanged(reports[0], k),
        forall|i: int| 0 <= i < k ==> unchanged_step(#[trigger] steps[i]),
    decreases k,
{
    if k > 0 {
        lemma_all_unchanged(pack_name, pages, stored, steps, reports, k - 1);
        let i = k - 1;
        assert(same_content(stored[i], pages[i]));
        law_reapply_is_unchanged(pack_name, pages[i], stored[i], reports[i], steps[i], reports[i + 1]);
    }
}

proof fn lemma_no_conflicts_in(pages: Seq<ContentPage>, facts: Seq<PageFacts>, force: bool, n: int)
    requires
        0 <= n <= pages.len(),
        n <= facts.len(),
        forall|i: int| 0 <= i < n ==> no_conflict(pages[i], #[trigger] facts[i], force),
    ensures
        pack_conflicts(pages, facts, force, n).len() == 0,
    decreases n,
{
    if n > 0 {
        lemma_no_conflicts_in(pages, facts, force, n - 1);
    }
}

/// Law: re-applying a pack that the database already holds changes nothing.
/// When every page of a valid pack stands, unarchived and with the pack's
/// content, at its slug, and no other page owns its title, the check passes
/// and every step leaves its page unchanged (nothing is restored, created or
/// updated): the report only counts each page as unchanged.
pub proof fn law_reapply_pack_changes_nothing(
    pack: ContentPack,
    stored: Seq<Page>,
    facts: Seq<PageFacts>,
    steps: Seq<PackStep>,
    reports: Seq<ApplyReport>,
)
    requires
        pack_problem(pack) is None,
        stored.len() == pack.pages@.len(),
        forall|i: int|
            0 <= i < stored.len() ==> same_content(#[trigger] stored[i], pack.pages@[i])
                && stored[i].archived_at is None,
        facts.len() == stored.len(),
        forall|i: int|
            0 <= i < stored.len() ==> (#[trigger] facts[i]).current == Some(stored[i])
                && facts[i].title_owner is None,
        steps.len() == stored.len(),
        reports.len() == stored.len() + 1,
        reports[0].unchanged + stored.len() <= usize::MAX,
        forall|i: int|
            0 <= i < stored.len() ==> step_ok(
                pack.pack@,
                pack.pages@[i],
                facts[i].current,
                reports[i],
                #[trigger] steps[i],
                reports[i + 1],
            ),
    ensures
        check_outcome(pack, facts, false) is None,
        forall|i: int|
            0 <= i < stored.len() ==> unchanged_step(#[trigger] steps[i]),
        reports[stored.len() as int] == counted_unchanged(reports[0], stored.len() as int),
{
    let pages = pack.pages@;
    let n = pages.len() as int;
    assert forall|i: int| 0 <= i < n implies no_conflict(pages[i], #[trigger] facts[i], false) by {
        law_same_content_no_conflict(pages[i], facts[i], false);
    }
    lemma_no_conflicts_in(pages, facts, false, n);
    assert forall|i: int|
        0 <= i < n implies step_ok(
            pack.pack@,
            pages[i],
            Some(stored[i]),
            reports[i],
            #[trigger] steps[i],
            reports[i + 1],
        ) by {
        assert(facts[i].current == Some(stored[i]));
    }
    lemma_all_unchanged(pack.pack@, pages, stored, steps, reports, n);
}

proof fn lemma_distinct_pack_valid(pages: Seq<ContentPage>, n: int)
    requires
        0 <= n <= pages.len(),
        forall|i: int|
            0 <= i < pages.len() ==> trim((#[trigger] pages[i]).title@).len() > 0 && trim(
                pages[i].slug@,
            ).len() > 0 && is_content_type(pages[i].content_type@),
        forall|i: int, j: int|
            0 <= i < j < pages.len() ==> lowercase((#[trigger] pages[i]).slug@) != lowercase(
                (#[trigger] pages[j]).slug@,
            ) && lowercase(pages[i].title@) != lowercase(pages[j].title@),
    ensures
        first_problem(pages, n) is None,
    decreases n,
{
    if n > 0 {
        lemma_distinct_pack_valid(pages, n - 1);
        let i = n - 1;
        let p = pages[i];
        assert(trim(p.title@).len() > 0);
        if slug_keys(pages, i).contains(lowercase(p.slug@)) {
            let j = choose|j: int| 0 <= j < slug_keys(pages, i).len() && slug_keys(pages, i)[j]
                == lowercase(p.slug@);
            assert(slug_keys(pages, i)[j] == lowercase(pages[j].slug@));
            assert(lowercase(pages[j].slug@) != lowercase(pages[i].slug@));
        }
        if title_keys_upto(pages, i).contains(lowercase(p.title@)) {
            let j = choose|j: int| 0 <= j < title_keys_upto(pages, i).len() && title_keys_upto(
                pages,
                i,
            )[j] == lowercase(p.title@);
            assert(title_keys_upto(pages, i)[j] == lowercase(pages[j].title@));
            assert(lowercase(pages[j].title@) != lowercase(pages[i].title@));
        }
    }
}

/// Law: applying a fresh export of the wiki to the same wiki changes nothing.
/// When the wiki's unarchived pages have non-blank titles and slugs, valid
/// content types, and slugs and titles distinct ignoring case, the export of
/// them under a non-blank name passes the check, and applying it leaves every
/// page unchanged: the report only counts each page as unchanged.
pub proof fn law_export_then_apply_changes_nothing(
    wiki: Seq<Page>,
    pack: ContentPack,
    facts: Seq<PageFacts>,
    steps: Seq<PackStep>,
    reports: Seq<ApplyReport>,
)
    requires
        forall|i: int|
            0 <= i < wiki.len() ==> (#[trigger] wiki[i]).archived_at is None && trim(wiki[i].title@).len()
                > 0 && trim(wiki[i].slug@).len() > 0 && is_content_type(wiki[i].content_type@),
        forall|i: int, j: int|
            0 <= i < j < wiki.len() ==> lowercase((#[trigger] wiki[i]).slug@) != lowercase(
                (#[trigger] wiki[j]).slug@,
            ) && lowercase(wiki[i].title@) != lowercase(wiki[j].title@),
        pack.format == CONTENT_PACK_FORMAT,
        trim(pack.pack@).len() > 0,
        pack.pages@ == wiki.map_values(|p: Page| as_content(p)),
        facts.len() == wiki.len(),
        forall|i: int|
            0 <= i < wiki.len() ==> (#[trigger] facts[i]).current == Some(wiki[i])
                && facts[i].title_owner is None,
        steps.len() == wiki.len(),
        reports.len() == wiki.len() + 1,
        reports[0].unchanged + wiki.len() <= usize::MAX,
        forall|i: int|
            0 <= i < wiki.len() ==> step_ok(
                pack.pack@,
                pack.pages@[i],
                facts[i].current,
                reports[i],
                #[trigger] steps[i],
                reports[i + 1],
            ),
    ensures
        check_outcome(pack, facts, false) is None,
        forall|i: int|
            0 <= i < wiki.len() ==> unchanged_step(#[trigger] steps[i]),
        reports[wiki.len() as int] == counted_unchanged(reports[0], wiki.len() as int),
{
    let pages = pack.pages@;
    assert forall|i: int| 0 <= i < pages.len() implies trim((#[trigger] pages[i]).title@).len() > 0
        && trim(pages[i].slug@).len() > 0 && is_content_type(pages[i].content_type@) by {
        assert(pages[i] == as_content(wiki[i]));
    }
    assert forall|i: int, j: int|
        0 <= i < j < pages.len() implies lowercase((#[trigger] pages[i]).slug@) != lowercase(
            (#[trigger] pages[j]).slug@,
        ) && lowercase(pages[i].title@) != lowercase(pages[j].title@) by {
        assert(pages[i] == as_content(wiki[i]));
        assert(pages[j] == as_content(wiki[j]));
    }
    lemma_distinct_pack_valid(pages, pages.len() as int);
    assert forall|i: int| 0 <= i < wiki.len() implies same_content(#[trigger] wiki[i], pages[i])
        && wiki[i].archived_at is None by {
        assert(pages[i] == as_content(wiki[i]));
    }
    law_reapply_pack_changes_nothing(pack, wiki, facts, steps, reports);
}

/// Law: the hash a step records is the hash of what the page holds once the
/// step is done, whether it was created, updated or left unchanged.  So when
/// the same slug is checked again, against the page as written and with that
/// recorded hash, no local change is found: any later version of the page
/// applies without `force`, unless another page owns its title.
pub proof fn law_recorded_hash_is_the_written_content(
    pack_name: Seq<char>,
    incoming: ContentPage,
    existing: Option<Page>,
    report: ApplyReport,
    step: PackStep,
    next: ApplyReport,
    written: Page,
    later: ContentPage,
)
    requires
        step_ok(pack_name, incoming, existing, report, step, next),
        same_content(written, incoming),
        written.archived_at is None,
    ensures
        step.hash@ == content_hash(as_content(written)),
        page_conflict(
            later,
            (PageFacts { current: Some(written), last_hash: Some(step.hash), title_owner: None }),
            false,
        ) is None,
{
    assert(page_json(as_content(written)) == page_json(incoming));
}

} // verus!
