use proxynexus_core::games::ahlcg::adapter::{
    back_group_for, build_cards_and_versions, catalog_from_arkhamdb, display_title, AhlcgAdapter,
};
use proxynexus_core::games::ahlcg::models::{AhdbCard, AhdbPack};
use proxynexus_core::games::GameAdapterInfo;

fn card(code: &str, name: &str, type_code: &str, subtype_code: Option<&str>) -> AhdbCard {
    AhdbCard {
        code: code.to_string(),
        name: name.to_string(),
        pack_code: "core".to_string(),
        position: 1,
        type_code: type_code.to_string(),
        faction_code: "neutral".to_string(),
        quantity: Some(1),
        subtype_code: subtype_code.map(|s| s.to_string()),
        hidden: false,
        xp: None,
    }
}

fn player_card(code: &str, name: &str, pack_code: &str, position: i64, xp: i64) -> AhdbCard {
    AhdbCard {
        pack_code: pack_code.to_string(),
        position,
        xp: Some(xp),
        ..card(code, name, "skill", None)
    }
}

#[test]
fn player_and_encounter_cards_get_the_correct_back_group() {
    let raw = vec![
        card("01006", "Roland Banks", "investigator", None),
        card("01121", "Ghoul Priest", "enemy", None),
    ];
    let (cards, versions) = build_cards_and_versions(raw);

    assert_eq!(cards.len(), 2);
    assert_eq!(versions.len(), 2);
    assert_eq!(cards[0].back_group.as_deref(), Some("player"));
    assert_eq!(cards[1].back_group.as_deref(), Some("encounter"));
}

#[test]
fn a_weakness_carries_the_player_back_even_with_an_encounter_type_code() {
    // Mob Goons (08003) is type_code "enemy" but subtype "weakness": it
    // lives in the investigator's deck, so it prints with the player back.
    let raw = vec![
        card("08003", "Mob Goons", "enemy", Some("weakness")),
        card("01015", "Amnesia", "treachery", Some("basicweakness")),
    ];
    let (cards, _) = build_cards_and_versions(raw);

    assert_eq!(cards[0].back_group.as_deref(), Some("player"));
    assert_eq!(cards[1].back_group.as_deref(), Some("player"));
}

#[test]
fn an_unclassified_type_code_gets_no_back_group() {
    let raw = vec![card("00000", "Mystery", "investigator_choice", None)];
    let (cards, _) = build_cards_and_versions(raw);

    assert_eq!(cards[0].back_group, None);
}

#[test]
fn an_upgrade_is_a_card_of_its_own_title() {
    // Both are named "Deduction" in the API; only the level tells them
    // apart, and the pipeline groups by title.
    let raw = vec![
        player_card("01039", "Deduction", "core", 39, 0),
        player_card("02150", "Deduction", "tece", 150, 2),
    ];
    let (cards, _) = build_cards_and_versions(raw);

    assert_eq!(cards.len(), 2);
    assert_eq!(cards[0].title, "Deduction");
    assert_eq!(cards[0].title_normalized, "deduction");
    assert_eq!(cards[1].title, "Deduction (2)");
    assert_ne!(cards[1].title_normalized, cards[0].title_normalized);
}

#[test]
fn a_card_with_no_level_keeps_its_plain_name() {
    let raw = vec![card("01001", "Roland Banks", "investigator", None)];
    let (cards, _) = build_cards_and_versions(raw);

    assert_eq!(cards[0].title, "Roland Banks");
}

#[test]
fn versions_carry_the_code_pack_position_and_a_default_quantity_of_one() {
    let mut c = player_card("02150", "Deduction", "tece", 150, 2);
    c.quantity = None;
    let (cards, versions) = build_cards_and_versions(vec![c]);
    assert_eq!(cards[0].id, "02150");
    assert_eq!(cards[0].title_normalized, "deduction__2_");
    assert_eq!(versions[0].card_id, "02150");
    assert_eq!(versions[0].pack_id, "tece");
    assert_eq!(versions[0].quantity, 1);
    assert_eq!(versions[0].position, Some(150));
    assert_eq!(versions[0].api_id, None);
}

#[test]
fn display_title_spells_out_positive_levels_only() {
    assert_eq!(display_title("Deduction", Some(2)), "Deduction (2)");
    assert_eq!(display_title("Deduction", Some(0)), "Deduction");
    assert_eq!(display_title("Deduction", Some(-1)), "Deduction");
    assert_eq!(display_title("Deduction", None), "Deduction");
}

#[test]
fn back_groups_by_type_code() {
    assert_eq!(back_group_for("asset", None).as_deref(), Some("player"));
    assert_eq!(back_group_for("key", None).as_deref(), Some("encounter"));
    assert_eq!(back_group_for("location", Some("other")).as_deref(), Some("encounter"));
    assert_eq!(back_group_for("story", Some("weakness")).as_deref(), Some("player"));
    assert_eq!(back_group_for("investigator_choice", None), None);
}

#[test]
fn arkhamdb_catalog_maps_packs_and_cards() {
    let packs = vec![AhdbPack {
        code: "core".into(),
        name: "Core Set".into(),
        position: 1,
        available: Some("2016-11-10".into()),
    }];
    let catalog = catalog_from_arkhamdb(packs, vec![card("01001", "Roland Banks", "investigator", None)]);
    assert_eq!(catalog.game_id, "ahlcg");
    assert_eq!(catalog.display_name, "Arkham Horror (Chapter 1)");
    assert_eq!(catalog.packs[0].id, "core");
    assert_eq!(catalog.packs[0].name, "Core Set");
    assert_eq!(catalog.packs[0].date_release.as_deref(), Some("2016-11-10"));
    assert_eq!(catalog.cards[0].title_normalized, "roland_banks");
    assert_eq!(catalog.card_versions[0].pack_id, "core");
}

#[test]
fn adapter_metadata() {
    let a = AhlcgAdapter::new();
    assert_eq!(a.game_id(), "ahlcg");
    assert_eq!(a.game_name(), "Arkham Horror (Chapter 1)");
    assert_eq!(a.subdomains(), vec!["ahlcg"]);
}
