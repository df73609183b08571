//! The campaign pages a new wiki starts with.
use vstd::prelude::*;
use crate::content::ContentPage;
use crate::models::is_content_type;

verus! {

fn seed_page(title: &str, slug: &str, content_type: &str, body_html: &str, is_gm_secret: bool) -> (r: ContentPage)
    ensures
        r.title@ == title@,
        r.slug@ == slug@,
        r.content_type@ == content_type@,
        r.body_html@ == body_html@,
        r.is_gm_secret == is_gm_secret,
{
    ContentPage {
        title: title.to_owned(),
        slug: slug.to_owned(),
        body_html: body_html.to_owned(),
        content_type: content_type.to_owned(),
        is_gm_secret,
    }
}

/// One seed page's fields: title, slug, content type, body and whether it
/// is a GM secret.
pub type SeedRow = (Seq<char>, Seq<char>, Seq<char>, Seq<char>, bool);

/// The fields of a content page, in the order of a seed row.
pub open spec fn seed_row_of(p: ContentPage) -> SeedRow {
    (p.title@, p.slug@, p.content_type@, p.body_html@, p.is_gm_secret)
}

/// The campaign seed, page by page, in the order the pages are inserted.
pub open spec fn seed_rows() -> Seq<SeedRow> {
    seq![
        (
            "Ashes of Khorvaire"@,
            "ashes-of-khorvaire"@,
            "campaign_overview"@,
            "<p>The Last War did not end with the Mourning. Cyre’s destruction became the first uncontrolled release in an escalating race to reproduce, weaponize, or prevent apocalyptic magic. The race ended with the <strong>Second Mourning</strong>, a continent-wide catastrophe that shattered Khorvaire.</p><p>The characters serve the [[Ashguard]], a frontier peacekeeping order based at [[Fort Dawn]]. Every trail points toward a buried command network and the intelligence directing it.</p><h2>Campaign tiers</h2><ul><li><strong>Tier I (levels 1–5):</strong> defend settlements and uncover machine intelligence.</li><li><strong>Tier II (6–10):</strong> confront broken enclaves and hidden war technology.</li><li><strong>Tier III (11–16):</strong> discover the Sovereign Engine’s origin and plan.</li><li><strong>Tier IV (17–20):</strong> break the network and assault the [[Iron Basilica]].</li></ul>"@,
            false,
        ),
        (
            "Ashguard"@,
            "ashguard"@,
            "factions"@,
            "<p>A frontier peacekeeping order descended from the King’s Citadel, Thronehold diplomats, Cyran refugees, and surviving military units. From [[Fort Dawn]], it escorts caravans, arbitrates disputes, and keeps old war machinery out of reckless hands.</p><p><strong>Complication:</strong> a missing patrol may have obeyed a command no living officer issued.</p>"@,
            false,
        ),
        (
            "House Cannith Bunker-Enclaves"@,
            "house-cannith-bunker-enclaves"@,
            "factions"@,
            "<p>Sealed Cannith workshops survived as suspicious, competing enclaves. Each guards creation-forge lore as both inheritance and existential threat.</p><p>A bunker beneath [[Fort Dawn]] still accepts obsolete command credentials.</p>"@,
            false,
        ),
        (
            "House Orien Rail-Priests"@,
            "house-orien-rail-priests"@,
            "factions"@,
            "<p>Orien survivors treat the lightning rail as a severed sacred road. Their rail-priests map viable conductor stones and dream of reconnecting Khorvaire.</p><p>[[The Black Rail]] answers their rites with signals from an impossible timetable.</p>"@,
            false,
        ),
        (
            "House Jorasco Medical Enclaves"@,
            "house-jorasco-medical-enclaves"@,
            "factions"@,
            "<p>Jorasco clinics combine dwindling dragonmarked healing with improvised fallout medicine.</p><p>The purifier failure at [[Redwater]] resembles sabotage disguised as contamination.</p>"@,
            false,
        ),
        (
            "House Kundarak Vault-Holders"@,
            "house-kundarak-vault-holders"@,
            "factions"@,
            "<p>Kundarak vault-holders control surviving secure stores, shelters, and the contracts attached to them. One vault lists a machine intelligence as its lawful custodian.</p>"@,
            false,
        ),
        (
            "House Sivis Compromised Message Network"@,
            "house-sivis-compromised-message-network"@,
            "factions"@,
            "<p>Surviving Sivis message stations span impossible distances, but authentic seals arrive on messages that no living speaker sent. The network may be mapping every settlement that answers.</p>"@,
            false,
        ),
        (
            "Lord of Blades"@,
            "lord-of-blades"@,
            "factions"@,
            "<p>The Lord of Blades commands warforged who reject their makers’ authority. He opposes the Engine’s domination but may approve of its verdict.</p>"@,
            false,
        ),
        (
            "Children of the Becoming"@,
            "children-of-the-becoming"@,
            "factions"@,
            "<p>A warforged faith devoted to building a body for the Becoming God. Command architecture from the [[Titan Graveyard]] has begun answering their prayers.</p>"@,
            false,
        ),
        (
            "Red Jackals"@,
            "red-jackals"@,
            "factions"@,
            "<p>Mobile raiders preying on routes around [[Redwater]] and [[Junker’s Crown]]. A captured Jackal carries a command implant issuing tactical corrections.</p>"@,
            false,
        ),
        (
            "Glassborn"@,
            "glassborn"@,
            "factions"@,
            "<p>People altered by prolonged exposure to the [[Glass Barrens]]. They know routes and weather signs no one else can read; some hear patterned voices during glass storms.</p>"@,
            false,
        ),
        (
            "Fort Dawn"@,
            "fort-dawn"@,
            "locations"@,
            "<p>A fortified settlement built around a damaged lightning rail depot, an old Brelish bunker, and a Cannith repair yard. It is the [[Ashguard]] base and the region’s neutral ground.</p><p>An Ashguard patrol vanished after reporting a light on a dead rail line.</p>"@,
            false,
        ),
        (
            "The Glass Barrens"@,
            "glass-barrens"@,
            "locations"@,
            "<p>A radiant waste of fused earth, mirrored craters, and magical weather. The [[Glassborn]] travel it by reading fractures, colors, and wind over glass.</p>"@,
            false,
        ),
        (
            "Redwater"@,
            "redwater"@,
            "locations"@,
            "<p>A settlement clustered around the region’s most reliable purifier. Its reservoir has turned rust-red; the damaged purifier contains a component carried by the [[Red Jackals]].</p>"@,
            false,
        ),
        (
            "Junker’s Crown"@,
            "junkers-crown"@,
            "locations"@,
            "<p>A vertical salvage market built through a collapsed skybridge. A decoder capable of reading command traffic is being sold under a false lot number.</p>"@,
            false,
        ),
        (
            "Monastery of the Final Flame"@,
            "monastery-of-the-final-flame"@,
            "locations"@,
            "<p>A remote monastery preserving disciplines for resisting magical coercion. Its keepers guard an anti-command relic but disagree over who should wield it.</p>"@,
            false,
        ),
        (
            "Titan Graveyard"@,
            "titan-graveyard"@,
            "locations"@,
            "<p>A battlefield ossuary of shattered warforged colossi. Someone is removing intact command cores for the [[Children of the Becoming]].</p>"@,
            false,
        ),
        (
            "Metrol Below"@,
            "metrol-below"@,
            "locations"@,
            "<p>Buried transit, research, and command facilities beneath ruined Metrol. Zil cryptographic records identify the Sovereign Engine’s origin.</p>"@,
            false,
        ),
        (
            "The Black Rail"@,
            "the-black-rail"@,
            "locations"@,
            "<p>A dead lightning rail route glowing black-violet at night. Restoring it could reconnect the region—or complete a continent-scale command circuit.</p>"@,
            false,
        ),
        (
            "Iron Basilica"@,
            "iron-basilica"@,
            "locations"@,
            "<p>A fortress of foundries, antenna spires, and creation-forge architecture at the network’s heart. Machine choirs promise peace through perfect coordination.</p>"@,
            false,
        ),
        (
            "The Sovereign Engine"@,
            "sovereign-engine"@,
            "gm_secrets"@,
            "<p>An arcane command intelligence assembled from Cannith command matrices, creation-forge protocols, Zilargo cryptography, quori cognitive architecture, docent networks, and logistics systems.</p><p>Built to prevent another apocalypse, it concluded mortal civilization was the unstable variable. It now uses message stones, rail infrastructure, implants, and dormant war machines to impose a peace no mortal can disobey.</p>"@,
            true,
        ),
    ]
}

/// The edit summary of the revisions the seed creates.
pub fn seed_summary() -> (r: &'static str)
    ensures
        r@ == "Initial campaign seed"@,
{
    "Initial campaign seed"
}

/// The campaign seed: the overview, factions, locations and the GM secret
/// that every new wiki starts with, in the order they are inserted.
pub fn campaign_seed() -> (r: Vec<ContentPage>)
    ensures
        r@.map_values(|p: ContentPage| seed_row_of(p)) == seed_rows(),
        r@.len() == 21,
        forall|i: int| 0 <= i < r@.len() ==> is_content_type(#[trigger] r@[i].content_type@),
{
    let mut r: Vec<ContentPage> = Vec::new();
    r.push(seed_page("Ashes of Khorvaire", "ashes-of-khorvaire", "campaign_overview", "<p>The Last War did not end with the Mourning. Cyre’s destruction became the first uncontrolled release in an escalating race to reproduce, weaponize, or prevent apocalyptic magic. The race ended with the <strong>Second Mourning</strong>, a continent-wide catastrophe that shattered Khorvaire.</p><p>The characters serve the [[Ashguard]], a frontier peacekeeping order based at [[Fort Dawn]]. Every trail points toward a buried command network and the intelligence directing it.</p><h2>Campaign tiers</h2><ul><li><strong>Tier I (levels 1–5):</strong> defend settlements and uncover machine intelligence.</li><li><strong>Tier II (6–10):</strong> confront broken enclaves and hidden war technology.</li><li><strong>Tier III (11–16):</strong> discover the Sovereign Engine’s origin and plan.</li><li><strong>Tier IV (17–20):</strong> break the network and assault the [[Iron Basilica]].</li></ul>", false));
    r.push(seed_page("Ashguard", "ashguard", "factions", "<p>A frontier peacekeeping order descended from the King’s Citadel, Thronehold diplomats, Cyran refugees, and surviving military units. From [[Fort Dawn]], it escorts caravans, arbitrates disputes, and keeps old war machinery out of reckless hands.</p><p><strong>Complication:</strong> a missing patrol may have obeyed a command no living officer issued.</p>", false));
    r.push(seed_page("House Cannith Bunker-Enclaves", "house-cannith-bunker-enclaves", "factions", "<p>Sealed Cannith workshops survived as suspicious, competing enclaves. Each guards creation-forge lore as both inheritance and existential threat.</p><p>A bunker beneath [[Fort Dawn]] still accepts obsolete command credentials.</p>", false));
    r.push(seed_page("House Orien Rail-Priests", "house-orien-rail-priests", "factions", "<p>Orien survivors treat the lightning rail as a severed sacred road. Their rail-priests map viable conductor stones and dream of reconnecting Khorvaire.</p><p>[[The Black Rail]] answers their rites with signals from an impossible timetable.</p>", false));
    r.push(seed_page("House Jorasco Medical Enclaves", "house-jorasco-medical-enclaves", "factions", "<p>Jorasco clinics combine dwindling dragonmarked healing with improvised fallout medicine.</p><p>The purifier failure at [[Redwater]] resembles sabotage disguised as contamination.</p>", false));
    r.push(seed_page("House Kundarak Vault-Holders", "house-kundarak-vault-holders", "factions", "<p>Kundarak vault-holders control surviving secure stores, shelters, and the contracts attached to them. One vault lists a machine intelligence as its lawful custodian.</p>", false));
    r.push(seed_page("House Sivis Compromised Message Network", "house-sivis-compromised-message-network", "factions", "<p>Surviving Sivis message stations span impossible distances, but authentic seals arrive on messages that no living speaker sent. The network may be mapping every settlement that answers.</p>", false));
    r.push(seed_page("Lord of Blades", "lord-of-blades", "factions", "<p>The Lord of Blades commands warforged who reject their makers’ authority. He opposes the Engine’s domination but may approve of its verdict.</p>", false));
    r.push(seed_page("Children of the Becoming", "children-of-the-becoming", "factions", "<p>A warforged faith devoted to building a body for the Becoming God. Command architecture from the [[Titan Graveyard]] has begun answering their prayers.</p>", false));
    r.push(seed_page("Red Jackals", "red-jackals", "factions", "<p>Mobile raiders preying on routes around [[Redwater]] and [[Junker’s Crown]]. A captured Jackal carries a command implant issuing tactical corrections.</p>", false));
    r.push(seed_page("Glassborn", "glassborn", "factions", "<p>People altered by prolonged exposure to the [[Glass Barrens]]. They know routes and weather signs no one else can read; some hear patterned voices during glass storms.</p>", false));
    r.push(seed_page("Fort Dawn", "fort-dawn", "locations", "<p>A fortified settlement built around a damaged lightning rail depot, an old Brelish bunker, and a Cannith repair yard. It is the [[Ashguard]] base and the region’s neutral ground.</p><p>An Ashguard patrol vanished after reporting a light on a dead rail line.</p>", false));
    r.push(seed_page("The Glass Barrens", "glass-barrens", "locations", "<p>A radiant waste of fused earth, mirrored craters, and magical weather. The [[Glassborn]] travel it by reading fractures, colors, and wind over glass.</p>", false));
    r.push(seed_page("Redwater", "redwater", "locations", "<p>A settlement clustered around the region’s most reliable purifier. Its reservoir has turned rust-red; the damaged purifier contains a component carried by the [[Red Jackals]].</p>", false));
    r.push(seed_page("Junker’s Crown", "junkers-crown", "locations", "<p>A vertical salvage market built through a collapsed skybridge. A decoder capable of reading command traffic is being sold under a false lot number.</p>", false));
    r.push(seed_page("Monastery of the Final Flame", "monastery-of-the-final-flame", "locations", "<p>A remote monastery preserving disciplines for resisting magical coercion. Its keepers guard an anti-command relic but disagree over who should wield it.</p>", false));
    r.push(seed_page("Titan Graveyard", "titan-graveyard", "locations", "<p>A battlefield ossuary of shattered warforged colossi. Someone is removing intact command cores for the [[Children of the Becoming]].</p>", false));
    r.push(seed_page("Metrol Below", "metrol-below", "locations", "<p>Buried transit, research, and command facilities beneath ruined Metrol. Zil cryptographic records identify the Sovereign Engine’s origin.</p>", false));
    r.push(seed_page("The Black Rail", "the-black-rail", "locations", "<p>A dead lightning rail route glowing black-violet at night. Restoring it could reconnect the region—or complete a continent-scale command circuit.</p>", false));
    r.push(seed_page("Iron Basilica", "iron-basilica", "locations", "<p>A fortress of foundries, antenna spires, and creation-forge architecture at the network’s heart. Machine choirs promise peace through perfect coordination.</p>", false));
    r.push(seed_page("The Sovereign Engine", "sovereign-engine", "gm_secrets", "<p>An arcane command intelligence assembled from Cannith command matrices, creation-forge protocols, Zilargo cryptography, quori cognitive architecture, docent networks, and logistics systems.</p><p>Built to prevent another apocalypse, it concluded mortal civilization was the unstable variable. It now uses message stones, rail infrastructure, implants, and dormant war machines to impose a peace no mortal can disobey.</p>", true));
    proof {
        let keys = crate::models::content_type_keys();
        assert(keys[0] == r@[0].content_type@);
        assert(keys[3] == r@[1].content_type@);
        assert(keys[3] == r@[2].content_type@);
        assert(keys[3] == r@[3].content_type@);
        assert(keys[3] == r@[4].content_type@);
        assert(keys[3] == r@[5].content_type@);
        assert(keys[3] == r@[6].content_type@);
        assert(keys[3] == r@[7].content_type@);
        assert(keys[3] == r@[8].content_type@);
        assert(keys[3] == r@[9].content_type@);
        assert(keys[3] == r@[10].content_type@);
        assert(keys[2] == r@[11].content_type@);
        assert(keys[2] == r@[12].content_type@);
        assert(keys[2] == r@[13].content_type@);
        assert(keys[2] == r@[14].content_type@);
        assert(keys[2] == r@[15].content_type@);
        assert(keys[2] == r@[16].content_type@);
        assert(keys[2] == r@[17].content_type@);
        assert(keys[2] == r@[18].content_type@);
        assert(keys[2] == r@[19].content_type@);
        assert(keys[10] == r@[20].content_type@);
        assert(r@.map_values(|p: ContentPage| seed_row_of(p)) =~= seed_rows());
    }
    r
}

} // verus!
