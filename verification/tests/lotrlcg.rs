use proxynexus_core::games::lotrlcg::adapter::{prefixes_cut_cleanly, promo_slugs, ringsdb_pack_prefix};
use proxynexus_core::games::lotrlcg::assembly::assemble_lotr_catalog;
use proxynexus_core::games::lotrlcg::models::{AlepCard, HobCard, RingsDbCard, RingsDbPack};
use proxynexus_core::games::lotrlcg::side_from_type_code;
use std::collections::HashSet;

fn hob(slug: &str, card_set: &str, rings_db_card_id: &str) -> HobCard {
    HobCard {
        title: slug.split('-').next().unwrap_or(slug).to_string(),
        slug: slug.to_string(),
        card_set: card_set.to_string(),
        number: 0,
        quantity: Some(1),
        front: None,
        card_type: "Hero".into(),
        rings_db_card_id: Some(rings_db_card_id.to_string()),
    }
}

#[test]
fn player_type_codes_map_to_player_side() {
    assert_eq!(side_from_type_code(Some("hero")), "player");
    assert_eq!(side_from_type_code(Some("treasure")), "player");
}

#[test]
fn quest_type_codes_map_to_quest_side() {
    assert_eq!(side_from_type_code(Some("quest")), "quest");
    assert_eq!(side_from_type_code(Some("nightmare-setup")), "quest");
}

#[test]
fn unknown_or_absent_type_codes_map_to_encounter_side() {
    assert_eq!(side_from_type_code(Some("enemy")), "encounter");
    assert_eq!(side_from_type_code(None), "encounter");
}

#[test]
fn ringsdb_pack_prefix_drops_the_card_number() {
    assert_eq!(ringsdb_pack_prefix(&hob("a", "s", "02095")), Some("02"));
    assert_eq!(ringsdb_pack_prefix(&hob("a", "s", "148020")), Some("148"));
    assert_eq!(ringsdb_pack_prefix(&hob("a", "s", "")), None);
}

#[test]
fn ringsdb_pack_prefix_needs_more_than_three_characters() {
    assert_eq!(ringsdb_pack_prefix(&hob("a", "s", "123")), None);
    let mut no_id = hob("a", "s", "");
    no_id.rings_db_card_id = None;
    assert_eq!(ringsdb_pack_prefix(&no_id), None);
}

#[test]
fn promo_slugs_flags_cards_from_a_foreign_pack() {
    // The Siege of Annuminas' own cards are all 000NN. The two Gen Con promo
    // heroes keep the ids of the packs they were really printed in.
    let cards = vec![
        hob("Standard-Game-Mode-TSoA", "The Siege of Annuminas", "00001"),
        hob(
            "Rebuild-the-Defenses-TSoA",
            "The Siege of Annuminas",
            "00003",
        ),
        hob("Defend-the-City-TSoA", "The Siege of Annuminas", "00004"),
        hob("Lead-the-Sortie-TSoA", "The Siege of Annuminas", "00005"),
        hob("Faramir-TSoA", "The Siege of Annuminas", "06081"),
        hob("Boromir-TSoA", "The Siege of Annuminas", "02095"),
    ];

    let promos = promo_slugs(&cards);
    assert_eq!(promos.len(), 2);
    assert!(promos.contains("Faramir-TSoA"));
    assert!(promos.contains("Boromir-TSoA"));
}

#[test]
fn promo_slugs_leaves_reprint_collections_alone() {
    // Hero expansions are collections of reprints with no dominant prefix.
    // Without the threshold the rule would strip most of the product.
    let cards = vec![
        hob("Boromir-DoG", "Defenders of Gondor", "01001"),
        hob("Faramir-Ally-DoG", "Defenders of Gondor", "02010"),
        hob("Faramir-Hero-DoG", "Defenders of Gondor", "06028"),
        hob("Mablung-DoG", "Defenders of Gondor", "13003"),
    ];

    assert!(promo_slugs(&cards).is_empty());
}

#[test]
fn promo_slugs_threshold_is_sixty_percent_of_the_set() {
    // 3 of 5 share a prefix: exactly 60%, so the other two are flagged.
    let at_threshold = vec![
        hob("A", "S", "01001"),
        hob("B", "S", "01002"),
        hob("C", "S", "01003"),
        hob("D", "S", "02001"),
        hob("E", "S", "03001"),
    ];
    let promos = promo_slugs(&at_threshold);
    assert_eq!(promos.len(), 2);
    assert!(promos.contains("D"));
    assert!(promos.contains("E"));

    // 2 of 4 is only 50%: nothing is flagged.
    let below = vec![
        hob("A", "S", "01001"),
        hob("B", "S", "01002"),
        hob("C", "S", "02001"),
        hob("D", "S", "03001"),
    ];
    assert!(promo_slugs(&below).is_empty());
}

#[test]
fn promo_slugs_judges_each_set_on_its_own() {
    let cards = vec![
        hob("A", "S1", "01001"),
        hob("B", "S1", "01002"),
        hob("C", "S1", "01003"),
        hob("X", "S1", "02001"),
        hob("D", "S2", "02001"),
        hob("E", "S2", "02002"),
    ];
    let promos = promo_slugs(&cards);
    assert_eq!(promos.len(), 1);
    assert!(promos.contains("X"));
}

fn hob_card(slug: &str, title: &str, set: &str, number: i64, card_type: &str) -> HobCard {
    HobCard {
        title: title.to_string(),
        slug: slug.to_string(),
        card_set: set.to_string(),
        number,
        quantity: None,
        front: None,
        card_type: card_type.to_string(),
        rings_db_card_id: None,
    }
}

#[test]
fn assembled_catalog_merges_its_sources_without_duplicates() {
    let hob_cards = vec![
        hob_card("Aragorn-Core", "Aragorn", "Core Set", 1, "Hero"),
        hob_card("Aragorn-Core", "Aragorn", "Core Set", 1, "Hero"),
        hob_card("Goblin-Sniper-Core", "Goblin Sniper", "Core Set", 75, "Enemy"),
        hob_card("Passage-Through-Mirkwood-Core", "Flies and Spiders", "Core Set", 119, "Quest"),
    ];
    let packs = vec![
        RingsDbPack { name: "Core Set".into(), available: Some("2011-04-20".into()) },
        RingsDbPack { name: "ALeP - The Aldburg Plot.English".into(), available: Some("2022-01-01".into()) },
    ];
    let alep = vec![
        AlepCard {
            name: "Erkenbrand".into(),
            pack_name: "ALeP - The Aldburg Plot.English".into(),
            type_code: Some("hero".into()),
            quantity: Some(1),
            position: Some(1),
            is_official: Some(false),
        },
        AlepCard {
            name: "Official Card".into(),
            pack_name: "Core Set".into(),
            type_code: None,
            quantity: None,
            position: None,
            is_official: None,
        },
    ];
    let ringsdb = vec![
        // Same pack and position as a Hall of Beorn card: passed over.
        RingsDbCard {
            name: "Aragorn".into(),
            pack_name: "Core Set".into(),
            type_code: Some("hero".into()),
            quantity: Some(1),
            position: Some(1),
        },
        RingsDbCard {
            name: "Theoden".into(),
            pack_name: "ALeP - The Aldburg Plot.English".into(),
            type_code: Some("hero".into()),
            quantity: None,
            position: Some(2),
        },
    ];
    let catalog = assemble_lotr_catalog(hob_cards, packs, alep, ringsdb);
    assert_eq!(catalog.game_id, "lotrlcg");
    assert_eq!(catalog.display_name, "Lord of the Rings LCG");

    let pack_ids: Vec<&str> = catalog.packs.iter().map(|p| p.id.as_str()).collect();
    assert_eq!(pack_ids, vec!["core_set", "the_aldburg_plot"]);
    assert_eq!(catalog.packs[0].name, "Core Set");
    assert_eq!(catalog.packs[0].date_release.as_deref(), Some("2011-04-20"));
    assert_eq!(catalog.packs[1].name, "ALeP - The Aldburg Plot");
    assert_eq!(catalog.packs[1].date_release.as_deref(), Some("2022-01-01"));

    let card_ids: Vec<&str> = catalog.cards.iter().map(|c| c.id.as_str()).collect();
    assert_eq!(
        card_ids,
        vec![
            "aragorn_core",
            "goblin_sniper_core",
            "passage_through_mirkwood_core",
            "erkenbrand_the_aldburg_plot",
            "theoden_the_aldburg_plot",
        ]
    );
    assert_eq!(catalog.cards[0].side.as_deref(), Some("player"));
    assert_eq!(catalog.cards[1].side.as_deref(), Some("encounter"));
    assert_eq!(catalog.cards[2].side.as_deref(), Some("quest"));
    assert_eq!(catalog.cards[2].title, "Flies and Spiders");
    assert_eq!(catalog.cards[2].title_normalized, "flies_and_spiders");

    assert_eq!(catalog.card_versions.len(), 5);
    assert_eq!(catalog.card_versions[0].quantity, 3);
    assert_eq!(catalog.card_versions[0].position, Some(1));
    assert_eq!(catalog.card_versions[4].card_id, "theoden_the_aldburg_plot");
    assert_eq!(catalog.card_versions[4].pack_id, "the_aldburg_plot");

    let mut seen = HashSet::new();
    for v in &catalog.card_versions {
        assert!(seen.insert((v.card_id.clone(), v.pack_id.clone())));
        assert!(catalog.cards.iter().any(|c| c.id == v.card_id));
        assert!(catalog.packs.iter().any(|p| p.id == v.pack_id));
    }
}

#[test]
fn assembled_catalog_drops_promos_from_hall_of_beorn() {
    let mut promo = hob("Boromir-TSoA", "The Siege of Annuminas", "02095");
    promo.card_type = "Hero".into();
    let cards = vec![
        hob("Standard-Game-Mode-TSoA", "The Siege of Annuminas", "00001"),
        hob("Rebuild-the-Defenses-TSoA", "The Siege of Annuminas", "00003"),
        hob("Defend-the-City-TSoA", "The Siege of Annuminas", "00004"),
        promo,
    ];
    let catalog = assemble_lotr_catalog(cards, Vec::new(), Vec::new(), Vec::new());
    assert_eq!(catalog.cards.len(), 3);
    assert!(catalog.cards.iter().all(|c| c.id != "boromir_tsoa"));
    assert_eq!(catalog.packs.len(), 1);
    assert_eq!(catalog.packs[0].id, "the_siege_of_annuminas");
    assert_eq!(catalog.packs[0].date_release, None);
}

#[test]
fn promo_slugs_do_not_depend_on_card_order() {
    let mut cards = vec![
        hob("Boromir-TSoA", "The Siege of Annuminas", "02095"),
        hob("Standard-Game-Mode-TSoA", "The Siege of Annuminas", "00001"),
        hob("Defend-the-City-TSoA", "The Siege of Annuminas", "00004"),
        hob("Faramir-TSoA", "The Siege of Annuminas", "06081"),
        hob("Lead-the-Sortie-TSoA", "The Siege of Annuminas", "00005"),
        hob("Rebuild-the-Defenses-TSoA", "The Siege of Annuminas", "00003"),
    ];
    let first = promo_slugs(&cards);
    cards.reverse();
    let second = promo_slugs(&cards);
    assert_eq!(first.len(), 2);
    assert_eq!(second.len(), 2);
    for slug in ["Boromir-TSoA", "Faramir-TSoA"] {
        assert!(first.contains(slug));
        assert!(second.contains(slug));
    }
}

#[test]
fn prefixes_cut_cleanly_spots_an_id_cut_through_a_character() {
    assert!(prefixes_cut_cleanly(&[hob("Aragorn-Core", "Core Set", "01001"), hob("Short", "Core Set", "12")]));
    assert!(!prefixes_cut_cleanly(&[hob("Odd", "Core Set", "aé12")]));
    assert!(prefixes_cut_cleanly(&[hob("Fine", "Core Set", "é123")]));
    assert!(prefixes_cut_cleanly(&[]));
}
