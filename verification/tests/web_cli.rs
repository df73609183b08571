use ashes_wiki::cli::{has_arg, matches_option_value, option_value, positional_path, wants_usage};
use ashes_wiki::models::Page;
use ashes_wiki::web::{
    edit_form, edit_form_view, filter_pages, is_hx, list_title, new_form_view, new_page_form,
    page_url, saved_url, slug_preview,
};

fn args(v: &[&str]) -> Vec<String> {
    v.iter().map(|s| s.to_string()).collect()
}

fn page(id: i64, kind: &str) -> Page {
    Page {
        id,
        title: format!("P{id}"),
        slug: format!("p{id}"),
        body_html: String::new(),
        search_text: String::new(),
        content_type: kind.into(),
        is_gm_secret: false,
        created_at: 0,
        updated_at: 0,
        archived_at: None,
    }
}

#[test]
fn cli_options_and_paths() {
    let a = args(&["export", "--pack", "camp", "out.json", "--database-url", "sqlite://x.db"]);
    assert_eq!(option_value(&a, "--pack").as_deref(), Some("camp"));
    assert_eq!(option_value(&a, "--database-url").as_deref(), Some("sqlite://x.db"));
    assert_eq!(option_value(&a, "--missing"), None);
    assert!(matches_option_value(&a, "camp"));
    assert!(!matches_option_value(&a, "out.json"));
    assert_eq!(positional_path(&a).unwrap(), "out.json");
    let a = args(&["apply", "--force"]);
    assert_eq!(positional_path(&a).unwrap_err(), "a content pack path is required");
    assert!(has_arg(&a, "--force"));
    assert!(wants_usage(&args(&[])));
    assert!(wants_usage(&args(&["check", "-h"])));
    assert!(!wants_usage(&args(&["check", "p.json"])));
    // the option value is found wherever it appears, so a path equal to it is skipped
    let a = args(&["apply", "camp", "--pack", "camp"]);
    assert!(positional_path(&a).is_err());
}

#[test]
fn lists_forms_and_links() {
    assert_eq!(list_title(""), "All dossiers");
    assert_eq!(list_title("npcs"), "NPCs");
    assert_eq!(list_title("nope"), "Unknown");
    let pages = vec![page(1, "npcs"), page(2, "locations"), page(3, "npcs")];
    let npcs = filter_pages(pages.clone(), "npcs");
    assert_eq!(npcs.iter().map(|p| p.id).collect::<Vec<_>>(), vec![1, 3]);
    assert_eq!(filter_pages(pages, "").len(), 3);
    let f = new_page_form("Fort".into());
    assert_eq!(f.content_type, "campaign_overview");
    assert_eq!(f.title, "Fort");
    let p = page(4, "npcs");
    let e = edit_form(&p);
    assert_eq!(e.slug, "p4");
    assert!(e.edit_summary.is_empty());
    let v = edit_form_view(&p);
    assert_eq!(v.heading, "Edit P4");
    assert_eq!(v.action, "/pages/p4/edit");
    assert_eq!(v.archive_action, "/pages/p4/archive");
    assert_eq!(new_form_view().action, "/pages/new");
    assert_eq!(page_url("fort-dawn"), "/pages/fort-dawn");
    assert_eq!(saved_url("fort-dawn"), "/pages/fort-dawn?saved=1");
    assert!(is_hx(Some("true")));
    assert!(!is_hx(Some("TRUE")));
    assert!(!is_hx(None));
    assert_eq!(slug_preview("You & Me", ""), "<code>you-me</code>");
    assert_eq!(slug_preview("ignored", "Custom Slug"), "<code>custom-slug</code>");
}
