//! What the wiki's pages show, apart from the HTML templates: list titles
//! and filters, form contents, links, and the slug preview.
use vstd::prelude::*;
use crate::models::{Page, PageForm, label_of, type_label};
use crate::text::{chars_of, is_blank, push_str, str_eq, string_of, trim};
use crate::encode::{encode_text, escape_text, slugified, slugify};

verus! {

/// The heading of the page list: all pages, or one content type's label.
pub fn list_title(kind: &str) -> (r: String)
    ensures
        r@ == if kind@.len() == 0 {
            "All dossiers"@
        } else {
            label_of(kind@)
        },
{
    if kind.is_empty() {
        "All dossiers".to_owned()
    } else {
        type_label(kind).to_owned()
    }
}

/// The pages of a content type, in order (all pages when no type is asked for).
pub open spec fn pages_of_type(pages: Seq<Page>, kind: Seq<char>) -> Seq<Page>
    decreases pages.len(),
{
    if pages.len() == 0 {
        Seq::empty()
    } else {
        let prev = pages_of_type(pages.drop_last(), kind);
        if kind.len() == 0 || pages.last().content_type@ == kind {
            prev.push(pages.last())
        } else {
            prev
        }
    }
}

/// The pages listed for a content type filter.
pub fn filter_pages(pages: Vec<Page>, kind: &str) -> (r: Vec<Page>)
    ensures
        r@ == pages_of_type(pages@, kind@),
{
    let all = kind.is_empty();
    let mut r: Vec<Page> = Vec::new();
    let mut i: usize = 0;
    while i < pages.len()
        invariant
            0 <= i <= pages.len(),
            all == (kind@.len() == 0),
            r@ == pages_of_type(pages@.take(i as int), kind@),
        decreases pages.len() - i,
    {
        assert(pages@.take(i + 1).drop_last() == pages@.take(i as int));
        assert(pages@.take(i + 1).last() == pages@[i as int]);
        if all || str_eq(pages[i].content_type.as_str(), kind) {
            r.push(pages[i].clone());
        }
        i = i + 1;
    }
    assert(pages@.take(pages.len() as int) == pages@);
    r
}

/// The form for a new page: the given title, the campaign overview type, and
/// everything else empty.
pub fn new_page_form(title: String) -> (r: PageForm)
    ensures
        r.title == title,
        r.slug@.len() == 0,
        r.body_html@.len() == 0,
        r.content_type@ == "campaign_overview"@,
        !r.is_gm_secret,
        r.edit_summary@.len() == 0,
{
    PageForm {
        title,
        slug: String::new(),
        body_html: String::new(),
        content_type: "campaign_overview".to_owned(),
        is_gm_secret: false,
        edit_summary: String::new(),
    }
}

/// The form for editing a page: its current fields and no summary.
pub fn edit_form(page: &Page) -> (r: PageForm)
    ensures
        r.title == page.title,
        r.slug == page.slug,
        r.body_html == page.body_html,
        r.content_type == page.content_type,
        r.is_gm_secret == page.is_gm_secret,
        r.edit_summary@.len() == 0,
{
    PageForm {
        title: page.title.clone(),
        slug: page.slug.clone(),
        body_html: page.body_html.clone(),
        content_type: page.content_type.clone(),
        is_gm_secret: page.is_gm_secret,
        edit_summary: String::new(),
    }
}

/// The framing of the page form.
#[derive(Debug)]
pub struct FormView {
    pub heading: String,
    pub action: String,
    pub archive_action: String,
    pub is_edit: bool,
}

/// The framing of the form for a new page.
pub fn new_form_view() -> (r: FormView)
    ensures
        r.heading@ == "Open a new dossier"@,
        r.action@ == "/pages/new"@,
        r.archive_action@.len() == 0,
        !r.is_edit,
{
    FormView {
        heading: "Open a new dossier".to_owned(),
        action: "/pages/new".to_owned(),
        archive_action: String::new(),
        is_edit: false,
    }
}

/// The framing of the form for editing a page.
pub fn edit_form_view(page: &Page) -> (r: FormView)
    ensures
        r.heading@ == "Edit "@ + page.title@,
        r.action@ == "/pages/"@ + page.slug@ + "/edit"@,
        r.archive_action@ == "/pages/"@ + page.slug@ + "/archive"@,
        r.is_edit,
{
    let mut heading = chars_of("Edit ");
    push_str(&mut heading, page.title.as_str());
    let mut action = chars_of("/pages/");
    push_str(&mut action, page.slug.as_str());
    push_str(&mut action, "/edit");
    let mut archive = chars_of("/pages/");
    push_str(&mut archive, page.slug.as_str());
    push_str(&mut archive, "/archive");
    FormView {
        heading: string_of(&heading),
        action: string_of(&action),
        archive_action: string_of(&archive),
        is_edit: true,
    }
}

/// The address of a page.
pub fn page_url(slug: &str) -> (r: String)
    ensures
        r@ == "/pages/"@ + slug@,
{
    let mut out = chars_of("/pages/");
    push_str(&mut out, slug);
    string_of(&out)
}

/// The address a saved page is shown at.
pub fn saved_url(slug: &str) -> (r: String)
    ensures
        r@ == "/pages/"@ + slug@ + "?saved=1"@,
{
    let mut out = chars_of("/pages/");
    push_str(&mut out, slug);
    push_str(&mut out, "?saved=1");
    string_of(&out)
}

/// Whether a request came from htmx (its `HX-Request` header is `true`).
pub fn is_hx(header: Option<&str>) -> (b: bool)
    ensures
        b == (header matches Some(h) && h@ == "true"@),
{
    match header {
        Some(h) => str_eq(h, "true"),
        None => false,
    }
}

/// The slug preview shown while editing: the slug the given slug (or, if it
/// is blank, the title) becomes, escaped, in a `<code>` element.
pub fn slug_preview(title: &str, slug: &str) -> (r: String)
    ensures
        r@ == "<code>"@ + escape_text(
            slugified(
                if trim(slug@).len() == 0 {
                    title@
                } else {
                    slug@
                },
            ),
        ) + "</code>"@,
{
    let s = if is_blank(slug) {
        slugify(title)
    } else {
        slugify(slug)
    };
    let shown = encode_text(s.as_str());
    let mut out = chars_of("<code>");
    push_str(&mut out, shown.as_str());
    push_str(&mut out, "</code>");
    string_of(&out)
}

} // verus!
