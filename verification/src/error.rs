//! Errors of the wiki and the page each one is shown as.
use vstd::prelude::*;
use crate::text::{chars_of, push_str, string_of};

verus! {

#[verifier::external_type_specification]
#[verifier::external_body]
pub struct ExSqlxError(sqlx::Error);

#[verifier::external_type_specification]
#[verifier::external_body]
pub struct ExAskamaError(askama::Error);

/// What can go wrong while serving the wiki.
#[derive(Debug)]
pub enum AppError {
    NotFound,
    Validation(String),
    Database(sqlx::Error),
    Template(askama::Error),
}

/// How an error is shown: HTTP status, heading, and message.
#[derive(Debug)]
pub struct ErrorView {
    pub status: u16,
    pub title: String,
    pub message: String,
}

/// The status, heading and message shown for an error.
pub open spec fn error_shown(e: AppError) -> (u16, Seq<char>, Seq<char>) {
    match e {
        AppError::NotFound => (
            404,
            "Dossier not found"@,
            "That page may have moved, been archived, or never existed."@,
        ),
        AppError::Validation(msg) => (422, "Check the dossier"@, msg@),
        AppError::Database(_) => (
            500,
            "The archive jammed"@,
            "The database could not complete that request."@,
        ),
        AppError::Template(_) => (500, "The archive jammed"@, "The page could not be rendered."@),
    }
}

impl AppError {
    /// The page shown for this error: a missing page is a 404, a rejected
    /// form a 422 with its message, and a database or template failure a 500
    /// that does not reveal the cause.
    pub fn view(&self) -> (r: ErrorView)
        ensures
            (r.status, r.title@, r.message@) == error_shown(*self),
    {
        match self {
            AppError::NotFound => ErrorView {
                status: 404,
                title: "Dossier not found".to_owned(),
                message: "That page may have moved, been archived, or never existed.".to_owned(),
            },
            AppError::Validation(msg) => ErrorView {
                status: 422,
                title: "Check the dossier".to_owned(),
                message: msg.clone(),
            },
            AppError::Database(_) => ErrorView {
                status: 500,
                title: "The archive jammed".to_owned(),
                message: "The database could not complete that request.".to_owned(),
            },
            AppError::Template(_) => ErrorView {
                status: 500,
                title: "The archive jammed".to_owned(),
                message: "The page could not be rendered.".to_owned(),
            },
        }
    }
}

/// The plain page shown when the error template itself cannot be rendered.
pub fn fallback_error_html(view: &ErrorView) -> (r: String)
    ensures
        r@ == "<h1>"@ + view.title@ + "</h1><p>"@ + view.message@ + "</p>"@,
{
    let mut out = chars_of("<h1>");
    push_str(&mut out, view.title.as_str());
    push_str(&mut out, "</h1><p>");
    push_str(&mut out, view.message.as_str());
    push_str(&mut out, "</p>");
    string_of(&out)
}

/// `sqlx`'s report that a database error is a unique-constraint violation
/// (`DatabaseError::is_unique_violation` on `sqlx::Error::Database`; false for
/// every other kind of error).  What it answers is decided by the database
/// driver and is not stated here.
#[verifier::external_body]
fn is_unique_violation(err: &sqlx::Error) -> bool {
    match err {
        sqlx::Error::Database(db) => db.is_unique_violation(),
        _ => false,
    }
}

/// The error for a failed write, given whether it broke a unique constraint:
/// a duplicate title or slug is the user's to fix, anything else is a
/// database failure.
pub fn constraint_error(err: sqlx::Error, unique_violation: bool) -> (r: AppError)
    ensures
        unique_violation ==> (r matches AppError::Validation(m) && m@
            == "That title or slug is already in use."@),
        !unique_violation ==> r == AppError::Database(err),
{
    if unique_violation {
        AppError::Validation("That title or slug is already in use.".to_owned())
    } else {
        AppError::Database(err)
    }
}

/// The error for a failed page write: a unique-constraint violation (the
/// title or slug is taken) becomes a validation error, any other failure a
/// database error.
pub fn map_constraint(err: sqlx::Error) -> (r: AppError)
    ensures
        r == AppError::Database(err) || (r matches AppError::Validation(m) && m@
            == "That title or slug is already in use."@),
{
    let unique = is_unique_violation(&err);
    constraint_error(err, unique)
}

} // verus!
