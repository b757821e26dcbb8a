use proxynexus_core::collection_manager::{
    check_admission, check_fronts, collection_insert_sql, index_versions, parse_filename,
    printing_insert_sql,
    resolve_card_and_version,
    CardPackIndex, CardPackKey, PrintingIndex, PrintingMatch, VersionRow,
};
use proxynexus_core::db_storage::quote_sql_string;

#[test]
fn test_parse_filename_variants() {
    assert_eq!(
        parse_filename("hedge_fund@system_gateway.jpg"),
        Some((
            "hedge_fund".to_string(),
            "system_gateway".to_string(),
            "front".to_string(),
            false
        ))
    );

    assert_eq!(
        parse_filename("a-legion-of-one@emerald-core-set.jpg"),
        Some((
            "a-legion-of-one".to_string(),
            "emerald-core-set".to_string(),
            "front".to_string(),
            false
        ))
    );

    assert_eq!(
        parse_filename("sync_everything_everywhere@data_and_destiny~back.png"),
        Some((
            "sync_everything_everywhere".to_string(),
            "data_and_destiny".to_string(),
            "back".to_string(),
            false
        ))
    );

    assert_eq!(
        parse_filename("hedge_fund@system_gateway~front.bleed.jpg"),
        Some((
            "hedge_fund".to_string(),
            "system_gateway".to_string(),
            "front".to_string(),
            true
        ))
    );

    assert_eq!(
        parse_filename("hedge_fund@system_gateway.bleed.png"),
        Some((
            "hedge_fund".to_string(),
            "system_gateway".to_string(),
            "front".to_string(),
            true
        ))
    );

    assert_eq!(parse_filename("hedge_fund~front.jpg"), None);
    assert_eq!(parse_filename("hedge_fund@multiple@ats.jpg"), None);
    assert_eq!(parse_filename("hedge_fund@dark-theme~back~extra.png"), None);
}

#[test]
fn parse_filename_takes_the_stem_as_path_does() {
    // No extension: the whole name is the stem.
    assert_eq!(
        parse_filename("card@pack"),
        Some(("card".to_string(), "pack".to_string(), "front".to_string(), false))
    );
    // Only the last extension goes.
    assert_eq!(
        parse_filename("card@pack.v2.jpg"),
        Some(("card".to_string(), "pack.v2".to_string(), "front".to_string(), false))
    );
    // A leading dot is part of the name.
    assert_eq!(parse_filename(".hidden"), None);
}

fn printing_id_map(entries: &[(&str, &str, &str, &str)]) -> PrintingIndex {
    let mut map = PrintingIndex::new();
    for (printing_id, version_id, card_api_id, pack_api_id) in entries {
        map.insert(
            printing_id.to_string(),
            PrintingMatch {
                version_id: version_id.to_string(),
                card_api_id: card_api_id.to_string(),
                pack_api_id: pack_api_id.to_string(),
            },
        );
    }
    map
}

fn card_pack_map(entries: &[(&str, &str, &str)]) -> CardPackIndex {
    let mut map = CardPackIndex::new();
    for (card_api_id, pack_api_id, version_id) in entries {
        map.insert(
            CardPackKey {
                card_api_id: card_api_id.to_string(),
                pack_api_id: pack_api_id.to_string(),
            },
            version_id.to_string(),
        );
    }
    map
}

#[test]
fn a_file_named_by_its_printings_own_id_links_to_that_version_and_card() {
    let by_printing_id =
        printing_id_map(&[("aragorn_revcore", "v1", "aragorn_core", "revised_core_set")]);
    let by_card_pack = CardPackIndex::new();

    let (card_id, version_id) = resolve_card_and_version(
        "aragorn_revcore",
        "revised_core_set",
        &by_printing_id,
        &by_card_pack,
    );

    assert_eq!(card_id, "aragorn_core");
    assert_eq!(version_id, Some("v1".to_string()));
}

#[test]
fn a_printing_id_in_an_unstored_pack_becomes_a_variant_of_its_card() {
    let by_printing_id =
        printing_id_map(&[("aragorn_revcore", "v1", "aragorn_core", "revised_core_set")]);
    let by_card_pack = CardPackIndex::new();

    let (card_id, version_id) = resolve_card_and_version(
        "aragorn_revcore",
        "enhanced",
        &by_printing_id,
        &by_card_pack,
    );

    assert_eq!(card_id, "aragorn_core");
    assert_eq!(version_id, None);
}

#[test]
fn a_card_id_named_file_still_links_via_the_card_and_pack_fallback() {
    let by_printing_id = PrintingIndex::new();
    let by_card_pack = card_pack_map(&[("hedge_fund", "system_gateway", "v2")]);

    let (card_id, version_id) = resolve_card_and_version(
        "hedge_fund",
        "system_gateway",
        &by_printing_id,
        &by_card_pack,
    );

    assert_eq!(card_id, "hedge_fund");
    assert_eq!(version_id, Some("v2".to_string()));
}

#[test]
fn an_unrecognized_file_becomes_a_variant_of_its_own_id() {
    let by_printing_id = PrintingIndex::new();
    let by_card_pack = CardPackIndex::new();

    let (card_id, version_id) =
        resolve_card_and_version("mystery_card", "alt_art", &by_printing_id, &by_card_pack);

    assert_eq!(card_id, "mystery_card");
    assert_eq!(version_id, None);
}

#[test]
fn a_card_and_pack_pair_wins_over_a_printing_id_of_another_pack() {
    let by_printing_id = printing_id_map(&[("x", "v1", "card_a", "pack_a")]);
    let by_card_pack = card_pack_map(&[("x", "pack_b", "v9")]);
    let (card_id, version_id) =
        resolve_card_and_version("x", "pack_b", &by_printing_id, &by_card_pack);
    assert_eq!(card_id, "x");
    assert_eq!(version_id, Some("v9".to_string()));
}

fn row(id: &str, card: &str, pack: &str, api: Option<&str>) -> VersionRow {
    VersionRow {
        id: id.into(),
        card_id: card.into(),
        pack_id: pack.into(),
        api_id: api.map(|s| s.to_string()),
    }
}

#[test]
fn the_first_row_of_a_card_and_pack_or_printing_id_wins() {
    let rows = vec![
        row("v1", "hedge_fund", "core", Some("p1")),
        row("v2", "hedge_fund", "core", Some("p1")),
        row("v3", "hedge_fund", "sg", None),
    ];
    let (by_card_pack, by_printing_id) = index_versions(&rows);
    assert_eq!(by_card_pack.get("hedge_fund", "core").map(|s| s.as_str()), Some("v1"));
    assert_eq!(by_card_pack.get("hedge_fund", "sg").map(|s| s.as_str()), Some("v3"));
    assert!(by_card_pack.get("hedge_fund", "other").is_none());
    let hit = by_printing_id.get("p1").unwrap();
    assert_eq!(hit.version_id, "v1");
    assert_eq!(hit.card_api_id, "hedge_fund");
    assert_eq!(hit.pack_api_id, "core");
    assert!(by_printing_id.get("v3").is_none());
}

#[test]
fn card_pack_keys_do_not_run_together() {
    let map = card_pack_map(&[("ab", "c", "v1")]);
    assert!(map.get("a", "bc").is_none());
    assert!(map.contains("ab", "c"));
}

fn file(card: &str, printing: &str, part: &str) -> (String, String, String, bool) {
    (card.into(), printing.into(), part.into(), false)
}

#[test]
fn every_printing_with_files_needs_a_front() {
    let ok = vec![
        file("a", "core", "back"),
        file("a", "core", "front"),
        file("b", "core", "front"),
    ];
    assert_eq!(check_fronts(&ok), Ok(()));

    let missing = vec![
        file("a", "core", "front"),
        file("b", "core", "back"),
        file("b", "alt", "front"),
    ];
    assert_eq!(check_fronts(&missing), Err(("b".to_string(), "core".to_string())));
}

#[test]
fn sql_strings_double_their_quotes() {
    assert_eq!(quote_sql_string("O'Brien"), "'O''Brien'");
    assert_eq!(quote_sql_string(""), "''");
    assert_eq!(quote_sql_string("''"), "''''''");
}

#[test]
fn a_linked_printing_is_stored_with_its_version_and_no_variant() {
    let sql = printing_insert_sql(
        7,
        3,
        "netrunner",
        "nsg",
        "hedge_fund@sg.jpg",
        "hedge_fund",
        &Some("v2".to_string()),
        "sg",
        "front",
        true,
    );
    assert_eq!(
        sql,
        "INSERT INTO printings (id, collection_id, card_id, version_id, variant, file_path, part, has_bleed) VALUES (7, 3, 'netrunner_hedge_fund', 'v2', NULL, 'netrunner/nsg/hedge_fund@sg.jpg', 'front', TRUE)"
    );
}

#[test]
fn an_unlinked_printing_is_stored_as_a_variant() {
    let sql = printing_insert_sql(1, 2, "g", "c", "x@alt.png", "x", &None, "alt", "back", false);
    assert_eq!(
        sql,
        "INSERT INTO printings (id, collection_id, card_id, version_id, variant, file_path, part, has_bleed) VALUES (1, 2, 'g_x', NULL, 'alt', 'g/c/x@alt.png', 'back', FALSE)"
    );
}

#[test]
fn a_new_collection_is_recorded_with_quoted_names() {
    assert_eq!(
        collection_insert_sql(2, "Bob's cards", "netrunner", "1.0.0", "en", "2024-01-02T03:04:05+00:00"),
        "INSERT INTO collections (id, name, game_id, version, language, added_date) VALUES (2, 'Bob''s cards', 'netrunner', '1.0.0', 'en', '2024-01-02T03:04:05+00:00')"
    );
}

#[test]
fn conventionally_named_files_read_back() {
    assert_eq!(
        parse_filename("hedge_fund@system_gateway~back.bleed.png"),
        Some(("hedge_fund".to_string(), "system_gateway".to_string(), "back".to_string(), true))
    );
    assert_eq!(
        parse_filename("01001@core.jpg"),
        Some(("01001".to_string(), "core".to_string(), "front".to_string(), false))
    );
    assert_eq!(
        parse_filename("a.b@c.d.jpg"),
        Some(("a.b".to_string(), "c.d".to_string(), "front".to_string(), false))
    );
}

#[test]
fn a_collection_needs_a_catalog_and_a_new_name() {
    assert_eq!(check_admission("ahlcg", "core", 3, false), Ok(()));
    assert_eq!(
        check_admission("ahlcg", "core", 0, true),
        Err("No catalog found for game 'ahlcg'. Please run 'catalog update' first.".to_string())
    );
    assert_eq!(
        check_admission("ahlcg", "core", 3, true),
        Err("Collection 'core' has already been added.".to_string())
    );
}
