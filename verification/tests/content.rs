use ashes_wiki::content::{
    apply_step, check_pack, export_pack, page_hash, stored_page_hash, validate_pack, ApplyReport,
    ContentPack, ContentPage, PackAction, PageFacts, CONTENT_PACK_FORMAT,
};
use ashes_wiki::models::Page;

fn managed(body: &str) -> ContentPage {
    ContentPage {
        title: "Managed Person".into(),
        slug: "managed-person".into(),
        body_html: body.into(),
        content_type: "npcs".into(),
        is_gm_secret: false,
    }
}

fn stored(id: i64, p: &ContentPage) -> Page {
    Page {
        id,
        title: p.title.clone(),
        slug: p.slug.clone(),
        body_html: p.body_html.clone(),
        search_text: String::new(),
        content_type: p.content_type.clone(),
        is_gm_secret: p.is_gm_secret,
        created_at: 0,
        updated_at: 0,
        archived_at: None,
    }
}

fn pack_of(pages: Vec<ContentPage>) -> ContentPack {
    ContentPack {
        format: CONTENT_PACK_FORMAT,
        pack: "test-campaign".into(),
        pages,
    }
}

#[test]
fn page_hash_is_sha256_of_compact_json() {
    let h = page_hash(&managed("<p>First version</p>")).unwrap();
    assert_eq!(
        h,
        "83d1ea50621431c68b4086b9bb2602e77bde940cf712951125e6c1fb59935c18"
    );
    let odd = ContentPage {
        title: "Quote \"Q\"".into(),
        slug: "q".into(),
        body_html: "a\nb\\c\u{1}".into(),
        content_type: "npcs".into(),
        is_gm_secret: true,
    };
    assert_eq!(
        page_hash(&odd).unwrap(),
        "dd1b3c04ed7114bd91f3e313506d27db7ce6736b272619a6acdb3599226fc189"
    );
    let p = stored(7, &managed("<p>First version</p>"));
    assert_eq!(stored_page_hash(&p).unwrap(), h);
}

#[test]
fn pack_scenario_is_idempotent_detects_conflicts_and_forces() {
    let mut pack = pack_of(vec![managed("<p>First version</p>")]);
    // first apply: nothing at the slug
    let facts = vec![PageFacts { current: None, last_hash: None, title_owner: None }];
    assert!(check_pack(&pack, &facts, false).is_ok());
    let (step, report) = apply_step(&pack.pack, &pack.pages[0], &None, ApplyReport::default());
    assert_eq!(report, ApplyReport { created: 1, updated: 0, unchanged: 0 });
    match &step.action {
        PackAction::Create(form) => {
            assert_eq!(form.title, "Managed Person");
            assert_eq!(form.edit_summary, "Created by content pack test-campaign");
        }
        _ => panic!("expected a create"),
    }
    let recorded = step.hash.clone();

    // second apply: the page holds the pack's content
    let page = stored(5, &pack.pages[0]);
    let facts = vec![PageFacts {
        current: Some(page.clone()),
        last_hash: Some(recorded.clone()),
        title_owner: None,
    }];
    assert!(check_pack(&pack, &facts, false).is_ok());
    let (step, report) = apply_step(&pack.pack, &pack.pages[0], &Some(page.clone()), ApplyReport::default());
    assert!(matches!(step.action, PackAction::Unchanged));
    assert_eq!(report.unchanged, 1);

    // edited locally, and the pack changed too
    let mut edited = page.clone();
    edited.body_html = "<p>Edited directly on the Pi</p>".into();
    pack.pages[0].body_html = "<p>Second version</p>".into();
    let facts = vec![PageFacts {
        current: Some(edited.clone()),
        last_hash: Some(recorded.clone()),
        title_owner: None,
    }];
    let conflict = check_pack(&pack, &facts, false).unwrap_err();
    assert!(conflict.contains("managed-person has local changes"));
    assert_eq!(
        conflict,
        "content pack has conflicts:\n  - managed-person has local changes\nRe-run with --force only after reviewing them."
    );

    // forced
    assert!(check_pack(&pack, &facts, true).is_ok());
    let (step, report) = apply_step(&pack.pack, &pack.pages[0], &Some(edited.clone()), ApplyReport::default());
    assert_eq!(report.updated, 1);
    match &step.action {
        PackAction::Update(id, form) => {
            assert_eq!(*id, 5);
            assert_eq!(form.body_html, "<p>Second version</p>");
            assert_eq!(form.edit_summary, "Applied content pack test-campaign");
        }
        _ => panic!("expected an update"),
    }
}

#[test]
fn archived_and_title_conflicts() {
    let pack = pack_of(vec![managed("<p>x</p>")]);
    let mut archived = stored(3, &pack.pages[0]);
    archived.archived_at = Some(10);
    let facts = vec![PageFacts { current: Some(archived.clone()), last_hash: None, title_owner: None }];
    assert!(check_pack(&pack, &facts, false).unwrap_err().contains("managed-person is archived"));
    assert!(check_pack(&pack, &facts, true).is_ok());
    let (step, _) = apply_step(&pack.pack, &pack.pages[0], &Some(archived), ApplyReport::default());
    assert_eq!(step.restore, Some(3));

    let facts = vec![PageFacts { current: None, last_hash: None, title_owner: Some("someone".into()) }];
    assert!(check_pack(&pack, &facts, true)
        .unwrap_err()
        .contains("managed-person conflicts with title owned by slug someone"));
}

#[test]
fn invalid_packs_are_rejected_with_their_first_problem() {
    let mut pack = pack_of(vec![managed("a")]);
    pack.format = 2;
    assert_eq!(
        validate_pack(&pack).unwrap_err(),
        "unsupported content pack format 2; expected 1"
    );
    let mut pack = pack_of(vec![managed("a")]);
    pack.pack = "  ".into();
    assert_eq!(validate_pack(&pack).unwrap_err(), "content pack name cannot be empty");
    let mut bad = managed("a");
    bad.content_type = "dragons".into();
    assert_eq!(
        validate_pack(&pack_of(vec![bad])).unwrap_err(),
        "managed-person has invalid content type"
    );
    let mut other = managed("b");
    other.slug = "MANAGED-person".into();
    assert_eq!(
        validate_pack(&pack_of(vec![managed("a"), other])).unwrap_err(),
        "duplicate slug in pack: MANAGED-person"
    );
    let mut other = managed("b");
    other.slug = "another".into();
    other.title = "managed PERSON".into();
    assert_eq!(
        validate_pack(&pack_of(vec![managed("a"), other])).unwrap_err(),
        "duplicate title in pack: managed PERSON"
    );
    let mut blank = managed("a");
    blank.title = " ".into();
    assert_eq!(
        validate_pack(&pack_of(vec![blank])).unwrap_err(),
        "content pages require a title and slug"
    );
    assert!(validate_pack(&pack_of(vec![managed("a")])).is_ok());
}

#[test]
fn export_keeps_page_content() {
    let pages = vec![stored(1, &managed("<p>x</p>"))];
    let pack = export_pack(&pages, "campaign");
    assert_eq!(pack.format, 1);
    assert_eq!(pack.pack, "campaign");
    assert_eq!(pack.pages.len(), 1);
    assert_eq!(pack.pages[0].body_html, "<p>x</p>");
}

#[test]
fn hashes_are_sixty_four_lowercase_hex_digits() {
    for body in ["", "<p>First version</p>", "\u{1F409} dragon"] {
        let h = page_hash(&managed(body)).unwrap();
        assert_eq!(h.len(), 64);
        assert!(h.chars().all(|c| c.is_ascii_digit() || ('a'..='f').contains(&c)));
        let s = stored_page_hash(&stored(1, &managed(body))).unwrap();
        assert_eq!(s, h);
    }
}

#[test]
fn a_check_that_passes_without_force_passes_with_it() {
    let pack = pack_of(vec![managed("<p>New</p>")]);
    let page = stored(4, &managed("<p>Old</p>"));
    let recorded = stored_page_hash(&page).unwrap();
    let cases = vec![
        PageFacts { current: None, last_hash: None, title_owner: None },
        PageFacts { current: Some(page.clone()), last_hash: Some(recorded), title_owner: None },
        PageFacts { current: Some(stored(4, &managed("<p>New</p>"))), last_hash: None, title_owner: None },
    ];
    for facts in cases {
        let facts = vec![facts];
        assert!(check_pack(&pack, &facts, false).is_ok());
        assert!(check_pack(&pack, &facts, true).is_ok());
    }
}

#[test]
fn reapplying_an_applied_pack_changes_nothing() {
    let second = ContentPage {
        title: "Second Person".into(),
        slug: "second-person".into(),
        body_html: "<p>Two</p>".into(),
        content_type: "npcs".into(),
        is_gm_secret: true,
    };
    let pack = pack_of(vec![managed("<p>One</p>"), second]);
    let stored_pages: Vec<Page> = pack.pages.iter().enumerate().map(|(i, p)| stored(i as i64 + 1, p)).collect();
    let facts: Vec<PageFacts> = stored_pages
        .iter()
        .map(|p| PageFacts { current: Some(p.clone()), last_hash: None, title_owner: None })
        .collect();
    assert!(check_pack(&pack, &facts, false).is_ok());
    let mut report = ApplyReport::default();
    for (p, s) in pack.pages.iter().zip(stored_pages.iter()) {
        let (step, next) = apply_step(&pack.pack, p, &Some(s.clone()), report);
        assert!(matches!(step.action, PackAction::Unchanged));
        assert_eq!(step.restore, None);
        report = next;
    }
    assert_eq!(report, ApplyReport { created: 0, updated: 0, unchanged: 2 });
}

#[test]
fn applying_a_fresh_export_changes_nothing() {
    let wiki = vec![
        stored(1, &managed("<p>One</p>")),
        stored(2, &ContentPage {
            title: "Fort Dawn".into(),
            slug: "fort-dawn".into(),
            body_html: "<p>Home</p>".into(),
            content_type: "locations".into(),
            is_gm_secret: false,
        }),
    ];
    let pack = export_pack(&wiki, "round-trip");
    let facts: Vec<PageFacts> = wiki
        .iter()
        .map(|p| PageFacts { current: Some(p.clone()), last_hash: None, title_owner: None })
        .collect();
    assert!(check_pack(&pack, &facts, false).is_ok());
    let mut report = ApplyReport::default();
    for (p, s) in pack.pages.iter().zip(wiki.iter()) {
        let (step, next) = apply_step(&pack.pack, p, &Some(s.clone()), report);
        assert!(matches!(step.action, PackAction::Unchanged));
        report = next;
    }
    assert_eq!(report, ApplyReport { created: 0, updated: 0, unchanged: 2 });
}
