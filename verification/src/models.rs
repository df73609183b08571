//! The wiki's records (pages, revisions, page forms) and its fixed list of
//! campaign content types.
use vstd::prelude::*;
use crate::text::str_eq;

verus! {

/// The content type keys, in display order.
pub open spec fn content_type_keys() -> Seq<Seq<char>> {
    seq![
        "campaign_overview"@,
        "settlements"@,
        "locations"@,
        "factions"@,
        "npcs"@,
        "quests"@,
        "timeline"@,
        "items"@,
        "monsters"@,
        "session_notes"@,
        "gm_secrets"@,
        "handouts"@,
    ]
}

/// The content type labels, in the same order as the keys.
pub open spec fn content_type_labels() -> Seq<Seq<char>> {
    seq![
        "Campaign Overview"@,
        "Settlements"@,
        "Locations"@,
        "Factions"@,
        "NPCs"@,
        "Quests / Adventures"@,
        "Timeline"@,
        "Items / Artifacts"@,
        "Monsters / Encounters"@,
        "Session Notes"@,
        "GM Secrets"@,
        "Player-Facing Handouts"@,
    ]
}

/// Whether `value` is one of the content type keys.
pub open spec fn is_content_type(value: Seq<char>) -> bool {
    content_type_keys().contains(value)
}

/// Index of the first key equal to `value`, from position `i` on.
pub open spec fn key_index_from(value: Seq<char>, i: int) -> int
    decreases 12 - i,
{
    if i >= 12 || i < 0 {
        12
    } else if content_type_keys()[i] == value {
        i
    } else {
        key_index_from(value, i + 1)
    }
}

/// The label of a content type key, or "Unknown".
pub open spec fn label_of(value: Seq<char>) -> Seq<char> {
    let i = key_index_from(value, 0);
    if i < 12 {
        content_type_labels()[i]
    } else {
        "Unknown"@
    }
}

/// The content types, as (key, label) pairs in display order.
pub fn content_types() -> (r: Vec<(&'static str, &'static str)>)
    ensures
        r@.len() == 12,
        forall|i: int|
            0 <= i < 12 ==> (#[trigger] r@[i]).0@ == content_type_keys()[i] && r@[i].1@
                == content_type_labels()[i],
{
    let mut r = Vec::new();
    r.push(("campaign_overview", "Campaign Overview"));
    r.push(("settlements", "Settlements"));
    r.push(("locations", "Locations"));
    r.push(("factions", "Factions"));
    r.push(("npcs", "NPCs"));
    r.push(("quests", "Quests / Adventures"));
    r.push(("timeline", "Timeline"));
    r.push(("items", "Items / Artifacts"));
    r.push(("monsters", "Monsters / Encounters"));
    r.push(("session_notes", "Session Notes"));
    r.push(("gm_secrets", "GM Secrets"));
    r.push(("handouts", "Player-Facing Handouts"));
    r
}

proof fn lemma_key_index(value: Seq<char>, i: int)
    requires
        0 <= i <= 12,
        forall|k: int| 0 <= k < i ==> content_type_keys()[k] != value,
    ensures
        i <= key_index_from(value, i) <= 12,
        key_index_from(value, i) < 12 <==> is_content_type(value),
        key_index_from(value, i) < 12 ==> content_type_keys()[key_index_from(value, i)]
            == value,
    decreases 12 - i,
{
    if i < 12 && content_type_keys()[i] != value {
        lemma_key_index(value, i + 1);
    }
    if i == 12 {
        if is_content_type(value) {
            let k = choose|k: int| 0 <= k < 12 && content_type_keys()[k] == value;
            assert(content_type_keys()[k] == value);
        }
    }
}

/// The label of a content type key, "Unknown" for any other value.
pub fn type_label(value: &str) -> (r: &'static str)
    ensures
        r@ == label_of(value@),
{
    let types = content_types();
    let mut i: usize = 0;
    while i < types.len()
        invariant
            types@.len() == 12,
            forall|k: int|
                0 <= k < 12 ==> (#[trigger] types@[k]).0@ == content_type_keys()[k] && types@[k].1@
                    == content_type_labels()[k],
            0 <= i <= 12,
            forall|k: int| 0 <= k < i ==> content_type_keys()[k] != value@,
            key_index_from(value@, 0) == key_index_from(value@, i as int),
        decreases 12 - i,
    {
        let (key, label) = types[i];
        if str_eq(key, value) {
            return label;
        }
        i = i + 1;
    }
    "Unknown"
}

/// Whether `value` is one of the content type keys.
pub fn valid_type(value: &str) -> (b: bool)
    ensures
        b == is_content_type(value@),
{
    let types = content_types();
    let mut i: usize = 0;
    while i < types.len()
        invariant
            types@.len() == 12,
            forall|k: int|
                0 <= k < 12 ==> (#[trigger] types@[k]).0@ == content_type_keys()[k],
            0 <= i <= 12,
            forall|k: int| 0 <= k < i ==> content_type_keys()[k] != value@,
        decreases 12 - i,
    {
        let (key, _label) = types[i];
        if str_eq(key, value) {
            assert(content_type_keys()[i as int] == value@);
            return true;
        }
        i = i + 1;
    }
    proof {
        lemma_key_index(value@, 12);
    }
    false
}

/// Law: a value has a known label exactly when it is a valid content type;
/// a valid type's label is the one listed beside its key.
pub proof fn law_label_known_iff_valid(value: Seq<char>)
    ensures
        is_content_type(value) ==> exists|i: int|
            0 <= i < 12 && content_type_keys()[i] == value && label_of(value)
                == content_type_labels()[i],
        !is_content_type(value) ==> label_of(value) == "Unknown"@,
{
    lemma_key_index(value, 0);
    if is_content_type(value) {
        let i = key_index_from(value, 0);
        assert(content_type_keys()[i] == value);
    }
}

/// A wiki page as stored.
#[derive(Debug)]
pub struct Page {
    pub id: i64,
    pub title: String,
    pub slug: String,
    pub body_html: String,
    pub search_text: String,
    pub content_type: String,
    pub is_gm_secret: bool,
    pub created_at: i64,
    pub updated_at: i64,
    pub archived_at: Option<i64>,
}

impl Clone for Page {
    fn clone(&self) -> (r: Self)
        ensures
            r == *self,
    {
        Page {
            id: self.id,
            title: self.title.clone(),
            slug: self.slug.clone(),
            body_html: self.body_html.clone(),
            search_text: self.search_text.clone(),
            content_type: self.content_type.clone(),
            is_gm_secret: self.is_gm_secret,
            created_at: self.created_at,
            updated_at: self.updated_at,
            archived_at: self.archived_at,
        }
    }
}

impl Page {
    /// The label of the page's content type.
    pub fn type_label(&self) -> (r: &'static str)
        ensures
            r@ == label_of(self.content_type@),
    {
        type_label(self.content_type.as_str())
    }
}

/// One saved state of a page.
#[derive(Debug)]
pub struct Revision {
    pub id: i64,
    pub page_id: i64,
    pub title: String,
    pub slug: String,
    pub body_html: String,
    pub search_text: String,
    pub content_type: String,
    pub is_gm_secret: bool,
    pub edit_summary: String,
    pub created_at: i64,
}

impl Clone for Revision {
    fn clone(&self) -> (r: Self)
        ensures
            r == *self,
    {
        Revision {
            id: self.id,
            page_id: self.page_id,
            title: self.title.clone(),
            slug: self.slug.clone(),
            body_html: self.body_html.clone(),
            search_text: self.search_text.clone(),
            content_type: self.content_type.clone(),
            is_gm_secret: self.is_gm_secret,
            edit_summary: self.edit_summary.clone(),
            created_at: self.created_at,
        }
    }
}

impl Revision {
    /// The label of the revision's content type.
    pub fn type_label(&self) -> (r: &'static str)
        ensures
            r@ == label_of(self.content_type@),
    {
        type_label(self.content_type.as_str())
    }
}

/// What an editor submits to create or update a page.
#[derive(Debug)]
pub struct PageForm {
    pub title: String,
    pub slug: String,
    pub body_html: String,
    pub content_type: String,
    pub is_gm_secret: bool,
    pub edit_summary: String,
}

impl Clone for PageForm {
    fn clone(&self) -> (r: Self)
        ensures
            r == *self,
    {
        PageForm {
            title: self.title.clone(),
            slug: self.slug.clone(),
            body_html: self.body_html.clone(),
            content_type: self.content_type.clone(),
            is_gm_secret: self.is_gm_secret,
            edit_summary: self.edit_summary.clone(),
        }
    }
}

impl Default for PageForm {
    fn default() -> (r: Self)
        ensures
            r.title@.len() == 0,
            r.slug@.len() == 0,
            r.body_html@.len() == 0,
            r.content_type@.len() == 0,
            !r.is_gm_secret,
            r.edit_summary@.len() == 0,
    {
        PageForm {
            title: String::new(),
            slug: String::new(),
            body_html: String::new(),
            content_type: String::new(),
            is_gm_secret: false,
            edit_summary: String::new(),
        }
    }
}

} // verus!
