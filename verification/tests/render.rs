use ashes_wiki::content::ContentPage;
use ashes_wiki::db::search_text;
use ashes_wiki::models::Page;
use ashes_wiki::render::{backlinks, broken_links, extract_titles, linked_pages, wiki_html};
use ashes_wiki::seed::campaign_seed;

fn page(id: i64, seed: &ContentPage) -> Page {
    Page {
        id,
        title: seed.title.clone(),
        slug: seed.slug.clone(),
        body_html: seed.body_html.clone(),
        search_text: search_text(&seed.body_html),
        content_type: seed.content_type.clone(),
        is_gm_secret: seed.is_gm_secret,
        created_at: 0,
        updated_at: 0,
        archived_at: None,
    }
}

fn seeded_pages() -> Vec<Page> {
    campaign_seed()
        .iter()
        .enumerate()
        .map(|(i, p)| page(i as i64 + 1, p))
        .collect()
}

fn simple(id: i64, title: &str, slug: &str, body: &str) -> Page {
    Page {
        id,
        title: title.into(),
        slug: slug.into(),
        body_html: body.into(),
        search_text: String::new(),
        content_type: "session_notes".into(),
        is_gm_secret: false,
        created_at: 0,
        updated_at: 0,
        archived_at: None,
    }
}

#[test]
fn wiki_links_resolve_and_missing_links_offer_creation() {
    let pages = seeded_pages();
    let html = wiki_html(
        &pages,
        "<p>Go to [[Fort Dawn]] then [[Unknown Vault]].</p><code>[[Fort Dawn]]</code>",
    );
    assert!(html.contains("/pages/fort-dawn"));
    assert!(html.contains("/pages/new?title=Unknown%20Vault"));
    assert!(html.contains("<code>[[Fort Dawn]]</code>"));
}

#[test]
fn link_analysis_drives_session_links_backlinks_and_diagnostics() {
    let mut pages = seeded_pages();
    let source = simple(
        100,
        "Linked Session",
        "linked-session",
        "<p>Visit [[Fort Dawn]], then [[Unwritten Vault]].</p><code>[[Ignored Link]]</code>",
    );
    pages.push(source.clone());

    let linked = linked_pages(&pages, &source.body_html);
    assert_eq!(
        linked.iter().map(|p| p.title.as_str()).collect::<Vec<_>>(),
        vec!["Fort Dawn"]
    );
    let fort = pages.iter().find(|p| p.slug == "fort-dawn").unwrap().clone();
    let back = backlinks(&pages, &fort);
    assert!(back.iter().any(|page| page.id == source.id));
    let broken = broken_links(&pages);
    let vault = broken
        .iter()
        .find(|link| link.title == "Unwritten Vault")
        .unwrap();
    assert!(vault.sources.iter().any(|page| page.id == source.id));
    assert!(!broken.iter().any(|link| link.title == "Ignored Link"));
}

#[test]
fn rendered_link_markup_is_exact() {
    let pages = vec![simple(1, "Fort Dawn", "fort-dawn", "")];
    let html = wiki_html(&pages, "a [[ fort dawn ]] b [[Vault & Co]]");
    assert_eq!(
        html,
        "a <a class=\"wiki-link\" href=\"/pages/fort-dawn\">fort dawn</a> b \
         <a class=\"wiki-link missing\" href=\"/pages/new?title=Vault%20%26%20Co\" title=\"Missing page\">Vault &amp; Co <span class=\"sr-only\">(Missing page)</span></a>"
    );
}

#[test]
fn body_without_links_renders_unchanged() {
    let pages = seeded_pages();
    let body = "<p>Plain <b>text</b> [single] ] [ and <pre>x</pre></p>";
    assert_eq!(wiki_html(&pages, body), body);
}

#[test]
fn skipped_regions_nest_and_tags_are_case_insensitive() {
    let pages: Vec<Page> = Vec::new();
    let titles = extract_titles(
        "<PRE>[[A]]<code>[[B]]</code>[[C]]</pre>[[D]]<script src=x>[[E]]</SCRIPT>[[F]]",
    );
    assert_eq!(titles, vec!["D", "F"]);
    let html = wiki_html(&pages, "<style>[[S]]</style>");
    assert_eq!(html, "<style>[[S]]</style>");
}

#[test]
fn extracted_titles_are_trimmed_and_distinct_ignoring_case() {
    let titles = extract_titles("[[ Fort Dawn ]] [[fort dawn]] [[  ]] [[Red]] [[[Inner]]]");
    assert_eq!(titles, vec!["Fort Dawn", "Red", "Inner"]);
}

#[test]
fn link_grammar_edge_cases() {
    // a tag runs from '<' to the first '>' after it, so "< b [[One]] <>" is one tag
    let titles = extract_titles("a < b [[One]] <> [[Two]] [[x]y]] [[Three]");
    assert_eq!(titles, vec!["Two"]);
    // "<>" alone is not a tag, and a '<' with no '>' after it is text
    let titles = extract_titles("<> [[One]] x < [[Two]]");
    assert_eq!(titles, vec!["One", "Two"]);
}

#[test]
fn later_pages_win_a_shared_title() {
    let pages = vec![
        simple(1, "Twin", "twin-1", ""),
        simple(2, "TWIN", "twin-2", ""),
    ];
    let html = wiki_html(&pages, "[[twin]]");
    assert!(html.contains("href=\"/pages/twin-2\""));
    let linked = linked_pages(&pages, "[[twin]]");
    assert_eq!(linked.len(), 1);
    assert_eq!(linked[0].id, 2);
}

#[test]
fn backlinks_are_sorted_by_title_and_exclude_the_target() {
    let pages = vec![
        simple(1, "Target", "target", "[[Target]]"),
        simple(2, "zeta", "zeta", "[[target]]"),
        simple(3, "Alpha", "alpha", "[[TARGET]]"),
        simple(4, "beta", "beta", "nothing"),
    ];
    let back = backlinks(&pages, &pages[0]);
    assert_eq!(
        back.iter().map(|p| p.id).collect::<Vec<_>>(),
        vec![3, 2]
    );
}

#[test]
fn broken_links_are_grouped_by_key_in_key_order() {
    let pages = vec![
        simple(1, "One", "one", "[[Zed]] [[apple]] [[One]]"),
        simple(2, "Two", "two", "[[ZED]] [[Apple]]"),
    ];
    let broken = broken_links(&pages);
    assert_eq!(broken.len(), 2);
    assert_eq!(broken[0].title, "apple");
    assert_eq!(
        broken[0].sources.iter().map(|p| p.id).collect::<Vec<_>>(),
        vec![1, 2]
    );
    assert_eq!(broken[1].title, "Zed");
    assert_eq!(broken[1].create_url(), "/pages/new?title=Zed");
}

#[test]
fn slugs_are_escaped_in_link_targets() {
    let pages = vec![simple(1, "Odd", "a\"b<c", "")];
    let html = wiki_html(&pages, "[[Odd]]");
    assert_eq!(
        html,
        "<a class=\"wiki-link\" href=\"/pages/a&quot;b&lt;c\">Odd</a>"
    );
}

#[test]
fn archived_pages_take_no_part_in_links() {
    let mut vault = simple(1, "Sunken Vault", "sunken-vault", "<p>See [[Fort Dawn]] and [[Lost Idol]].</p>");
    vault.archived_at = Some(50);
    let fort = simple(2, "Fort Dawn", "fort-dawn", "<p>Home.</p>");
    let live = simple(3, "Patrol Log", "patrol-log", "<p>[[Sunken Vault]] then [[Fort Dawn]]</p>");
    let pages = vec![vault.clone(), fort.clone(), live.clone()];

    let html = wiki_html(&pages, "[[Sunken Vault]]");
    assert!(html.contains("/pages/new?title=Sunken%20Vault"));
    assert!(!html.contains("/pages/sunken-vault"));

    let linked = linked_pages(&pages, &live.body_html);
    assert_eq!(linked.iter().map(|p| p.id).collect::<Vec<_>>(), vec![2]);

    let back = backlinks(&pages, &fort);
    assert_eq!(back.iter().map(|p| p.id).collect::<Vec<_>>(), vec![3]);

    let broken = broken_links(&pages);
    assert_eq!(broken.len(), 1);
    assert_eq!(broken[0].title, "Sunken Vault");
    assert_eq!(broken[0].sources.iter().map(|p| p.id).collect::<Vec<_>>(), vec![3]);
    assert!(!broken.iter().any(|link| link.title == "Lost Idol"));
}
