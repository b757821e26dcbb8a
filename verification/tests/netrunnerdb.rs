use proxynexus_core::netrunnerdb::{parse_nrdb_url, resolve_deck_requests, DeckCardLookup};

#[test]
fn a_decklist_url_gives_its_id_up_to_the_next_slash() {
    let (id, path) = parse_nrdb_url("https://netrunnerdb.com/en/decklist/7d9d8c1b-4c5e/my-deck-name").unwrap();
    assert_eq!(id, "7d9d8c1b-4c5e");
    assert_eq!(path, "decklist");
}

#[test]
fn a_private_deck_url_drops_trailing_slashes() {
    let (id, path) = parse_nrdb_url("https://netrunnerdb.com/en/deck/view/abc123//").unwrap();
    assert_eq!(id, "abc123");
    assert_eq!(path, "deck");
}

#[test]
fn a_decklist_marker_wins_over_a_deck_marker() {
    let (id, path) = parse_nrdb_url("https://x/deck/view/1/decklist/55").unwrap();
    assert_eq!(id, "55");
    assert_eq!(path, "decklist");
}

#[test]
fn the_id_stops_at_a_second_marker() {
    let (id, _) = parse_nrdb_url("https://x/deck/view/a/b/deck/view/c").unwrap();
    assert_eq!(id, "a/b");
}

#[test]
fn a_url_without_a_deck_is_refused() {
    let err = parse_nrdb_url("https://netrunnerdb.com/en/card/01001").unwrap_err();
    assert_eq!(err, "URL must be a NetrunnerDB decklist or deck URL");
}

#[test]
fn deck_cards_become_one_request_per_copy() {
    let cards = vec![
        DeckCardLookup { code: "01001".to_string(), quantity: 1, title: Some("Noise".to_string()) },
        DeckCardLookup { code: "99999".to_string(), quantity: 2, title: None },
        DeckCardLookup { code: "01002".to_string(), quantity: 3, title: Some("Deja Vu".to_string()) },
        DeckCardLookup { code: "88888".to_string(), quantity: 1, title: None },
    ];
    let (requests, missing) = resolve_deck_requests(&cards);
    assert_eq!(requests.len(), 4);
    assert_eq!(requests[0].title, "Noise");
    assert_eq!(requests[0].id, "01001");
    for r in &requests[1..] {
        assert_eq!(r.title, "Deja Vu");
        assert_eq!(r.id, "01002");
        assert!(r.printing.is_none());
        assert!(r.collection.is_none());
        assert!(r.position.is_none());
    }
    assert_eq!(missing, vec!["99999".to_string(), "88888".to_string()]);
}

#[test]
fn a_card_with_no_copies_asks_for_nothing() {
    let cards = vec![DeckCardLookup { code: "01001".to_string(), quantity: 0, title: Some("Noise".to_string()) }];
    let (requests, missing) = resolve_deck_requests(&cards);
    assert!(requests.is_empty());
    assert!(missing.is_empty());
}
