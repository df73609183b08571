use ashes_wiki::db::{
    create_write, update_write,
    edit_summary, fts_query, now, restore_form, search_text, slug_base, slug_candidate,
    stored_title, timestamp_from, unique_slug_exhausted, validate,
    active_after, active_session_check, can_be_active_session, no_active_session, note_html,
    quick_note_form, slug_is_free, slug_step, SlugStep,
};
use ashes_wiki::error::AppError;
use ashes_wiki::models::{Page, PageForm, Revision};
use ashes_wiki::seed::{campaign_seed, seed_summary};

fn form(title: &str, body: &str) -> PageForm {
    PageForm {
        title: title.into(),
        slug: String::new(),
        body_html: body.into(),
        content_type: "locations".into(),
        is_gm_secret: false,
        edit_summary: String::new(),
    }
}

#[test]
fn seed_has_the_campaign_pages() {
    let seed = campaign_seed();
    assert_eq!(seed.len(), 21);
    let redwater = seed.iter().find(|p| p.title == "Redwater").unwrap();
    assert!(search_text(&redwater.body_html).contains("purifier"));
    assert_eq!(seed_summary(), "Initial campaign seed");
    assert!(seed.iter().filter(|p| p.is_gm_secret).count() == 1);
}

#[test]
fn search_text_strips_tags_decodes_and_collapses() {
    assert_eq!(
        search_text("<p>Cyre&rsquo;s   fall</p>\n<ul><li>a &amp; b</li></ul>"),
        "Cyre\u{2019}s fall a & b"
    );
    assert_eq!(search_text("a<>b"), "a b");
    assert_eq!(search_text("x < y"), "x < y");
    assert_eq!(search_text("   "), "");
}

#[test]
fn validation_messages() {
    assert!(validate(&form("Signal Tower", "<p>x</p>")).is_ok());
    match validate(&form("  ", "x")) {
        Err(AppError::Validation(m)) => assert_eq!(m, "A title is required."),
        _ => panic!("expected a validation error"),
    }
    let mut f = form("T", "x");
    f.content_type = "nope".into();
    match validate(&f) {
        Err(AppError::Validation(m)) => assert_eq!(m, "Choose a valid campaign content type."),
        _ => panic!("expected a validation error"),
    }
    let big = "x".repeat(2_000_001);
    match validate(&form("T", &big)) {
        Err(AppError::Validation(m)) => assert_eq!(m, "The dossier body is too large."),
        _ => panic!("expected a validation error"),
    }
    assert!(validate(&form("T", &"x".repeat(2_000_000))).is_ok());
}

#[test]
fn slugs_come_from_the_slug_or_the_title() {
    assert_eq!(slug_base("", "Signal Tower"), "signal-tower");
    assert_eq!(slug_base("north-tower", "North Signal Tower"), "north-tower");
    assert_eq!(slug_base("   ", "!!!"), "untitled");
    assert_eq!(slug_base("Junker\u{2019}s Crown", "x"), "junker-s-crown");
    assert_eq!(slug_candidate("fort-dawn", 1).as_deref(), Some("fort-dawn"));
    assert_eq!(slug_candidate("fort-dawn", 2).as_deref(), Some("fort-dawn-2"));
    assert_eq!(slug_candidate("fort-dawn", 9999).as_deref(), Some("fort-dawn-9999"));
    assert_eq!(slug_candidate("fort-dawn", 10000), None);
    match unique_slug_exhausted() {
        AppError::Validation(m) => assert_eq!(m, "Could not create a unique slug."),
        _ => panic!("expected a validation error"),
    }
}

#[test]
fn fts_queries_quote_prefix_terms() {
    assert_eq!(fts_query("purifier"), "\"purifier\"*");
    assert_eq!(fts_query("  red   water!! "), "\"red\"* \"water\"*");
    assert_eq!(fts_query("a\"b --"), "\"a\"\"b\"*");
    assert_eq!(fts_query(" ... ?? "), "");
}

#[test]
fn summaries_titles_and_restores() {
    let mut f = form("  Signal Tower ", "x");
    assert_eq!(stored_title(&f), "Signal Tower");
    assert_eq!(edit_summary(&f, "Created page"), "Created page");
    f.edit_summary = "  Found the dial ".into();
    assert_eq!(edit_summary(&f, "Updated page"), "Found the dial");
    let rev = Revision {
        id: 12,
        page_id: 3,
        title: "Signal Tower".into(),
        slug: "signal-tower".into(),
        body_html: "<p>First signal</p>".into(),
        search_text: "First signal".into(),
        content_type: "locations".into(),
        is_gm_secret: false,
        edit_summary: "Created page".into(),
        created_at: 1,
    };
    let r = restore_form(&rev, 12);
    assert_eq!(r.title, "Signal Tower");
    assert_eq!(r.slug, "signal-tower");
    assert_eq!(r.edit_summary, "Restored revision #12");
    assert_eq!(restore_form(&rev, -5).edit_summary, "Restored revision #-5");
}

#[test]
fn timestamps() {
    assert_eq!(timestamp_from(None), 0);
    assert_eq!(timestamp_from(Some(1_700_000_000)), 1_700_000_000);
    assert!(now() > 1_600_000_000);
}

#[test]
fn page_writes_trim_titles_index_text_and_keep_old_slugs() {
    let mut f = form("  Signal Tower ", "<p>First&nbsp;signal</p>");
    let w = create_write(&f, "signal-tower".into());
    assert_eq!(w.title, "Signal Tower");
    assert_eq!(w.search_text, "First signal");
    assert_eq!(w.summary, "Created page");
    assert!(w.redirect_from.is_none());
    let old = Page {
        id: 1,
        title: "Signal Tower".into(),
        slug: "signal-tower".into(),
        body_html: String::new(),
        search_text: String::new(),
        content_type: "locations".into(),
        is_gm_secret: false,
        created_at: 0,
        updated_at: 0,
        archived_at: None,
    };
    f.edit_summary = "Found the dial".into();
    let w = update_write(&old, &f, "north-tower".into());
    assert_eq!(w.redirect_from.as_deref(), Some("signal-tower"));
    assert_eq!(w.summary, "Found the dial");
    let w = update_write(&old, &f, "signal-tower".into());
    assert!(w.redirect_from.is_none());
}

fn page(id: i64, content_type: &str, body: &str) -> Page {
    Page {
        id,
        title: "Session Two".into(),
        slug: "session-two".into(),
        body_html: body.into(),
        search_text: String::new(),
        content_type: content_type.into(),
        is_gm_secret: false,
        created_at: 1,
        updated_at: 1,
        archived_at: None,
    }
}

#[test]
fn a_slug_is_free_only_when_unused_and_not_redirected() {
    assert!(slug_is_free(0, 0));
    assert!(!slug_is_free(1, 0));
    assert!(!slug_is_free(0, 1));
    assert!(!slug_is_free(2, 3));
}

#[test]
fn only_unarchived_session_notes_can_be_active() {
    let session = page(7, "session_notes", "<p>x</p>");
    assert!(can_be_active_session(&session));
    assert!(active_session_check(&session).is_ok());
    let fort = page(8, "locations", "<p>x</p>");
    assert!(!can_be_active_session(&fort));
    match active_session_check(&fort) {
        Err(AppError::Validation(m)) => {
            assert_eq!(m, "Only unarchived session notes can be the active session.")
        }
        _ => panic!("expected a validation error"),
    }
    let mut archived = session.clone();
    archived.archived_at = Some(5);
    assert!(active_session_check(&archived).is_err());
}

#[test]
fn archiving_or_retyping_the_active_session_clears_it() {
    let session = page(7, "session_notes", "<p>x</p>");
    assert_eq!(active_after(Some(7), &session), Some(7));
    let mut archived = session.clone();
    archived.archived_at = Some(9);
    assert_eq!(active_after(Some(7), &archived), None);
    let retyped = page(7, "locations", "<p>Now a place</p>");
    assert_eq!(active_after(Some(7), &retyped), None);
    // another page changes nothing
    assert_eq!(active_after(Some(3), &archived), Some(3));
    assert_eq!(active_after(None, &session), None);
}

#[test]
fn quick_notes_are_escaped_with_line_breaks() {
    let session = page(7, "session_notes", "<p>Meet [[Fort Dawn]]</p>");
    let f = quick_note_form(&session, "Ambush <script>alert(1)</script>\nPatrol escaped").unwrap();
    assert_eq!(
        f.body_html,
        "<p>Meet [[Fort Dawn]]</p><p>Ambush &lt;script&gt;alert(1)&lt;/script&gt;<br>Patrol escaped</p>"
    );
    assert!(f.body_html.contains("&lt;script&gt;"));
    assert!(f.body_html.contains("<br>Patrol escaped"));
    assert_eq!(f.edit_summary, "Quick note added");
    assert_eq!(f.title, "Session Two");
    assert_eq!(f.slug, "session-two");
    assert_eq!(f.content_type, "session_notes");
    let w = update_write(&session, &f, "session-two".into());
    assert_eq!(w.summary, "Quick note added");
    assert!(w.redirect_from.is_none());
    assert_eq!(note_html("  a & b\r\nc  ").into_iter().collect::<String>(), "a &amp; b<br>c");
    match quick_note_form(&session, " \n ") {
        Err(AppError::Validation(m)) => assert_eq!(m, "A quick note cannot be empty."),
        _ => panic!("expected a validation error"),
    }
    match no_active_session() {
        AppError::Validation(m) => assert_eq!(m, "No session is active."),
        _ => panic!("expected a validation error"),
    }
}

#[test]
fn slug_search_takes_the_first_free_candidate() {
    match slug_step("fort-dawn", 1, 0, 0) {
        SlugStep::Take(s) => assert_eq!(s, "fort-dawn"),
        other => panic!("expected take, got {:?}", other),
    }
    match slug_step("fort-dawn", 1, 1, 0) {
        SlugStep::Try(n) => assert_eq!(n, 2),
        other => panic!("expected try, got {:?}", other),
    }
    match slug_step("fort-dawn", 2, 0, 1) {
        SlugStep::Try(n) => assert_eq!(n, 3),
        other => panic!("expected try, got {:?}", other),
    }
    match slug_step("fort-dawn", 3, 0, 0) {
        SlugStep::Take(s) => assert_eq!(s, "fort-dawn-3"),
        other => panic!("expected take, got {:?}", other),
    }
    assert!(matches!(slug_step("fort-dawn", 9999, 1, 1), SlugStep::Exhausted));
    match slug_step("fort-dawn", 9999, 0, 0) {
        SlugStep::Take(s) => assert_eq!(s, "fort-dawn-9999"),
        other => panic!("expected take, got {:?}", other),
    }
}

#[test]
fn seed_pages_in_order() {
    let seed = campaign_seed();
    let slugs: Vec<&str> = seed.iter().map(|p| p.slug.as_str()).collect();
    assert_eq!(slugs[0], "ashes-of-khorvaire");
    assert_eq!(slugs[11], "fort-dawn");
    assert_eq!(slugs[13], "redwater");
    assert_eq!(slugs[20], "sovereign-engine");
    assert_eq!(seed[11].title, "Fort Dawn");
    assert_eq!(seed[11].content_type, "locations");
    assert_eq!(seed[13].title, "Redwater");
    assert!(seed[13].body_html.contains("purifier"));
    assert_eq!(seed[20].content_type, "gm_secrets");
    assert!(seed[20].is_gm_secret);
    assert!(seed[..20].iter().all(|p| !p.is_gm_secret));
}
