use ashes_wiki::error::{constraint_error, fallback_error_html, map_constraint, AppError};
use ashes_wiki::models::{content_types, type_label, valid_type, Page, PageForm};

#[test]
fn labels_and_types() {
    assert_eq!(type_label("npcs"), "NPCs");
    assert_eq!(type_label("handouts"), "Player-Facing Handouts");
    assert_eq!(type_label("NPCS"), "Unknown");
    assert_eq!(type_label(""), "Unknown");
    assert!(valid_type("session_notes"));
    assert!(!valid_type("Session_notes"));
    let types = content_types();
    assert_eq!(types.len(), 12);
    for (key, label) in &types {
        assert!(valid_type(key));
        assert_eq!(type_label(key), *label);
    }
    let page = Page {
        id: 1,
        title: "t".into(),
        slug: "t".into(),
        body_html: String::new(),
        search_text: String::new(),
        content_type: "gm_secrets".into(),
        is_gm_secret: true,
        created_at: 0,
        updated_at: 0,
        archived_at: None,
    };
    assert_eq!(page.type_label(), "GM Secrets");
    let f = PageForm::default();
    assert!(f.title.is_empty() && !f.is_gm_secret);
}

#[test]
fn error_views() {
    let v = AppError::NotFound.view();
    assert_eq!(v.status, 404);
    assert_eq!(v.title, "Dossier not found");
    let v = AppError::Validation("Check it".into()).view();
    assert_eq!((v.status, v.message.as_str()), (422, "Check it"));
    assert_eq!(
        fallback_error_html(&v),
        "<h1>Check the dossier</h1><p>Check it</p>"
    );
    let v = AppError::Database(sqlx::Error::RowNotFound).view();
    assert_eq!(v.status, 500);
    assert_eq!(v.message, "The database could not complete that request.");
}

#[test]
fn write_errors_map_to_validation_or_database() {
    match map_constraint(sqlx::Error::RowNotFound) {
        AppError::Database(sqlx::Error::RowNotFound) => {}
        other => panic!("unexpected {other:?}"),
    }
    match constraint_error(sqlx::Error::RowNotFound, true) {
        AppError::Validation(m) => assert_eq!(m, "That title or slug is already in use."),
        other => panic!("unexpected {other:?}"),
    }
}
