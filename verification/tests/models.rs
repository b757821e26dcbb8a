use proxynexus_core::models::{BleedPreference, Printing, PrintingPart};

fn printing(pack_id: Option<&str>, variant: Option<&str>, position: Option<i64>) -> Printing {
    Printing {
        card_id: "gandalf_core".into(),
        card_title: "Gandalf".into(),
        is_official: true,
        variant: variant.map(|v| v.to_string()),
        front: PrintingPart {
            name: "front".into(),
            image_key: None,
            bleed_image_key: None,
        },
        parts: Vec::new(),
        collection: "enhanced".into(),
        side: "player".into(),
        pack_id: pack_id.map(|p| p.to_string()),
        date_release: None,
        position,
    }
}

#[test]
fn variant_key_uses_the_pack_when_present() {
    assert_eq!(
        printing(Some("core_set"), None, None).variant_key(),
        "core_set::enhanced"
    );
}

#[test]
fn variant_key_falls_back_to_the_variant_name() {
    assert_eq!(
        printing(None, Some("alt1"), None).variant_key(),
        "alt1::enhanced"
    );
}

#[test]
fn variant_key_falls_back_to_official_with_neither() {
    assert_eq!(
        printing(None, None, None).variant_key(),
        "official::enhanced"
    );
}

#[test]
fn variant_key_distinguishes_two_printings_of_one_card_in_one_pack() {
    let gandalf_4 = printing(Some("two_player_limited_edition_starter"), None, Some(4));
    let gandalf_37 = printing(Some("two_player_limited_edition_starter"), None, Some(37));

    assert_eq!(
        gandalf_4.variant_key(),
        "two_player_limited_edition_starter:4:enhanced"
    );
    assert_eq!(
        gandalf_37.variant_key(),
        "two_player_limited_edition_starter:37:enhanced"
    );
    assert_ne!(gandalf_4.variant_key(), gandalf_37.variant_key());
}

#[test]
fn variant_key_prefers_the_pack_over_the_variant_and_writes_negative_positions() {
    assert_eq!(
        printing(Some("core"), Some("alt"), Some(-12)).variant_key(),
        "core:-12:enhanced"
    );
    assert_eq!(
        printing(None, None, Some(0)).variant_key(),
        "official:0:enhanced"
    );
}

#[test]
fn variant_key_keeps_printings_without_a_position_apart_from_position_zero() {
    let none = printing(Some("core"), None, None).variant_key();
    let zero = printing(Some("core"), None, Some(0)).variant_key();
    assert_ne!(none, zero);
}

fn part(image: Option<&str>, bleed: Option<&str>) -> PrintingPart {
    PrintingPart {
        name: "front".into(),
        image_key: image.map(|s| s.to_string()),
        bleed_image_key: bleed.map(|s| s.to_string()),
    }
}

#[test]
fn image_takes_the_preferred_kind_when_the_part_has_it() {
    let p = part(Some("plain.jpg"), Some("bled.jpg"));
    let bled = p.image(BleedPreference::Bleed).unwrap();
    assert_eq!(bled.key, "bled.jpg");
    assert!(bled.has_bleed);
    let plain = p.image(BleedPreference::NoBleed).unwrap();
    assert_eq!(plain.key, "plain.jpg");
    assert!(!plain.has_bleed);
}

#[test]
fn image_falls_back_to_the_other_kind() {
    let only_plain = part(Some("plain.jpg"), None);
    let img = only_plain.image(BleedPreference::Bleed).unwrap();
    assert_eq!(img.key, "plain.jpg");
    assert!(!img.has_bleed);

    let only_bled = part(None, Some("bled.jpg"));
    let img = only_bled.image(BleedPreference::NoBleed).unwrap();
    assert_eq!(img.key, "bled.jpg");
    assert!(img.has_bleed);
}

#[test]
fn image_is_none_for_a_part_without_files() {
    let empty = part(None, None);
    assert!(empty.image(BleedPreference::Bleed).is_none());
    assert!(empty.image(BleedPreference::NoBleed).is_none());
}
