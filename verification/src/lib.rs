//! A campaign wiki: pages with `[[Title]]` links, revisions, archives,
//! slug redirects, full-text search and portable content packs.
pub mod text;
pub mod encode;
pub mod models;
pub mod render;
pub mod content;
pub mod error;
pub mod db;
pub mod web;
pub mod cli;
pub mod seed;
