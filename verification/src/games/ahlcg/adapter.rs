//! The Arkham Horror catalog, built from ArkhamDB's packs and cards.

use vstd::prelude::*;
use crate::catalog::{
    card_records, normalize_title, normalized_title, opt_chars, pack_records, version_records, Card,
    CardRecord, CardVersion, GameCatalog, Pack, PackRecord, VersionRecord,
};
use crate::games::ahlcg::models::{AhdbCard, AhdbPack};
use crate::games::GameAdapterInfo;
use crate::text::{i64_to_decimal, int_decimal, str_eq};

verus! {

pub struct AhlcgAdapter {}

impl AhlcgAdapter {
    pub fn new() -> (adapter: Self)
        ensures
            adapter == (AhlcgAdapter {  }),
    {
        AhlcgAdapter {  }
    }
}

impl Default for AhlcgAdapter {
    fn default() -> (adapter: Self)
        ensures
            adapter == (AhlcgAdapter {  }),
    {
        AhlcgAdapter::new()
    }
}

impl GameAdapterInfo for AhlcgAdapter {
    fn game_id(&self) -> (id: &'static str)
        ensures
            id@ == "ahlcg"@,
    {
        "ahlcg"
    }

    fn game_name(&self) -> (name: &'static str)
        ensures
            name@ == "Arkham Horror (Chapter 1)"@,
    {
        "Arkham Horror (Chapter 1)"
    }

    fn subdomains(&self) -> (domains: Vec<&'static str>)
        ensures
            domains.len() == 1,
            domains[0]@ == "ahlcg"@,
    {
        vec!["ahlcg"]
    }
}

/// Type codes of cards that take the player card back.
pub open spec fn is_player_type(t: Seq<char>) -> bool {
    ||| t == "investigator"@
    ||| t == "asset"@
    ||| t == "event"@
    ||| t == "skill"@
}

/// Type codes of cards that take the encounter card back.
pub open spec fn is_encounter_type(t: Seq<char>) -> bool {
    ||| t == "enemy"@
    ||| t == "enemy_location"@
    ||| t == "treachery"@
    ||| t == "agenda"@
    ||| t == "act"@
    ||| t == "location"@
    ||| t == "scenario"@
    ||| t == "story"@
    ||| t == "key"@
}

/// Which generic card back a card needs, classified by `type_code` rather than
/// `faction_code`/side. Weaknesses live in the investigator's deck, so they take
/// the player back whatever their type.
pub open spec fn back_group_of(type_code: Seq<char>, subtype_code: Option<Seq<char>>) -> Option<Seq<char>> {
    if subtype_code == Some("weakness"@) || subtype_code == Some("basicweakness"@) {
        Some("player"@)
    } else if is_player_type(type_code) {
        Some("player"@)
    } else if is_encounter_type(type_code) {
        Some("encounter"@)
    } else {
        None
    }
}

fn is_player_type_code(t: &str) -> (res: bool)
    ensures
        res == is_player_type(t@),
{
    str_eq(t, "investigator") || str_eq(t, "asset") || str_eq(t, "event") || str_eq(t, "skill")
}

fn is_encounter_type_code(t: &str) -> (res: bool)
    ensures
        res == is_encounter_type(t@),
{
    str_eq(t, "enemy") || str_eq(t, "enemy_location") || str_eq(t, "treachery") || str_eq(
        t,
        "agenda",
    ) || str_eq(t, "act") || str_eq(t, "location") || str_eq(t, "scenario") || str_eq(t, "story")
        || str_eq(t, "key")
}

pub fn back_group_for(type_code: &str, subtype_code: Option<&str>) -> (res: Option<String>)
    ensures
        opt_chars(res) == back_group_of(
            type_code@,
            match subtype_code {
                Some(s) => Some(s@),
                None => None,
            },
        ),
{
    let weakness = match subtype_code {
        Some(s) => str_eq(s, "weakness") || str_eq(s, "basicweakness"),
        None => false,
    };
    if weakness {
        return Some(String::from_str("player"));
    }
    if is_player_type_code(type_code) {
        Some(String::from_str("player"))
    } else if is_encounter_type_code(type_code) {
        Some(String::from_str("encounter"))
    } else {
        None
    }
}

/// The name ArkhamDB prints on the card. `name` alone is the base name, shared
/// by every level of an upgradeable card, so a level above zero is spelled out
/// after it: `Deduction (2)`.
pub open spec fn display_title_of(name: Seq<char>, xp: Option<i64>) -> Seq<char> {
    match xp {
        Some(xp) => if xp > 0 {
            name + " ("@ + int_decimal(xp as int) + ")"@
        } else {
            name
        },
        None => name,
    }
}

pub fn display_title(name: &str, xp: Option<i64>) -> (title: String)
    ensures
        title@ == display_title_of(name@, xp),
{
    match xp {
        Some(xp) if xp > 0 => {
            let mut t = String::from_str(name);
            t.append(" (");
            let digits = i64_to_decimal(xp);
            t.append(digits.as_str());
            t.append(")");
            t
        },
        _ => String::from_str(name),
    }
}

pub open spec fn card_record_of(card: AhdbCard) -> CardRecord {
    let title = display_title_of(card.name@, card.xp);
    CardRecord {
        id: card.code@,
        title: title,
        title_normalized: normalized_title(title),
        side: None,
        back_group: back_group_of(card.type_code@, opt_chars(card.subtype_code)),
    }
}

pub open spec fn version_record_of(card: AhdbCard) -> VersionRecord {
    VersionRecord {
        card_id: card.code@,
        pack_id: card.pack_code@,
        quantity: match card.quantity {
            Some(q) => q,
            None => 1,
        },
        position: Some(card.position),
        api_id: None,
    }
}

/// ArkhamDB keeps both sides of a double-sided card under one `code` -- both
/// the ordinary flip case and the case where the back is a mechanically distinct
/// card -- so each ArkhamDB card becomes one catalog card and one printing of it,
/// in the order given.
pub fn build_cards_and_versions(ahdb_cards: Vec<AhdbCard>) -> (res: (Vec<Card>, Vec<CardVersion>))
    ensures
        card_records(res.0@) == ahdb_cards@.map_values(|c: AhdbCard| card_record_of(c)),
        version_records(res.1@) == ahdb_cards@.map_values(|c: AhdbCard| version_record_of(c)),
{
    let mut cards: Vec<Card> = Vec::new();
    let mut versions: Vec<CardVersion> = Vec::new();
    let mut i: usize = 0;
    while i < ahdb_cards.len()
        invariant
            i <= ahdb_cards.len(),
            card_records(cards@) =~= ahdb_cards@.take(i as int).map_values(|c: AhdbCard| card_record_of(c)),
            version_records(versions@) =~= ahdb_cards@.take(i as int).map_values(|c: AhdbCard| version_record_of(c)),
        decreases ahdb_cards.len() - i,
    {
        let card = &ahdb_cards[i];
        let title = display_title(card.name.as_str(), card.xp);
        let title_normalized = normalize_title(title.as_str());
        let subtype = match &card.subtype_code {
            Some(s) => Some(s.as_str()),
            None => None,
        };
        let back_group = back_group_for(card.type_code.as_str(), subtype);
        let new_card = Card { id: card.code.clone(), title, title_normalized, side: None, back_group };
        let new_version = CardVersion {
            card_id: card.code.clone(),
            pack_id: card.pack_code.clone(),
            quantity: match card.quantity {
                Some(q) => q,
                None => 1,
            },
            position: Some(card.position),
            api_id: None,
        };
        assert(new_card@ == card_record_of(ahdb_cards@[i as int]));
        assert(new_version@ == version_record_of(ahdb_cards@[i as int]));
        let ghost old_cards = cards@;
        let ghost old_versions = versions@;
        cards.push(new_card);
        versions.push(new_version);
        proof {
            assert(ahdb_cards@.take(i + 1) =~= ahdb_cards@.take(i as int).push(ahdb_cards@[i as int]));
            assert(card_records(cards@) =~= card_records(old_cards).push(new_card@));
            assert(version_records(versions@) =~= version_records(old_versions).push(new_version@));
        }
        i += 1;
    }
    assert(ahdb_cards@.take(ahdb_cards.len() as int) =~= ahdb_cards@);
    (cards, versions)
}

pub open spec fn pack_record_of(pack: AhdbPack) -> PackRecord {
    PackRecord { id: pack.code@, name: pack.name@, date_release: opt_chars(pack.available) }
}

/// The catalog ArkhamDB's packs and cards describe: one pack per ArkhamDB pack
/// (its code as id, its `available` date as release date), and the cards and
/// printings of `build_cards_and_versions`.
pub fn catalog_from_arkhamdb(ahdb_packs: Vec<AhdbPack>, ahdb_cards: Vec<AhdbCard>) -> (catalog: GameCatalog)
    ensures
        catalog.game_id@ == "ahlcg"@,
        catalog.display_name@ == "Arkham Horror (Chapter 1)"@,
        pack_records(catalog.packs@) == ahdb_packs@.map_values(|p: AhdbPack| pack_record_of(p)),
        card_records(catalog.cards@) == ahdb_cards@.map_values(|c: AhdbCard| card_record_of(c)),
        version_records(catalog.card_versions@) == ahdb_cards@.map_values(|c: AhdbCard| version_record_of(c)),
{
    let mut packs: Vec<Pack> = Vec::new();
    let mut i: usize = 0;
    while i < ahdb_packs.len()
        invariant
            i <= ahdb_packs.len(),
            pack_records(packs@) =~= ahdb_packs@.take(i as int).map_values(|p: AhdbPack| pack_record_of(p)),
        decreases ahdb_packs.len() - i,
    {
        let pack = &ahdb_packs[i];
        let new_pack = Pack {
            id: pack.code.clone(),
            name: pack.name.clone(),
            date_release: match &pack.available {
                Some(d) => Some(d.clone()),
                None => None,
            },
        };
        assert(new_pack@ == pack_record_of(ahdb_packs@[i as int]));
        let ghost old_packs = packs@;
        packs.push(new_pack);
        proof {
            assert(ahdb_packs@.take(i + 1) =~= ahdb_packs@.take(i as int).push(ahdb_packs@[i as int]));
            assert(pack_records(packs@) =~= pack_records(old_packs).push(new_pack@));
        }
        i += 1;
    }
    assert(ahdb_packs@.take(ahdb_packs.len() as int) =~= ahdb_packs@);
    let (cards, card_versions) = build_cards_and_versions(ahdb_cards);
    let adapter = AhlcgAdapter::new();
    GameCatalog {
        game_id: String::from_str(adapter.game_id()),
        display_name: String::from_str(adapter.game_name()),
        packs,
        cards,
        card_versions,
    }
}

/// The card back every built card takes. A weakness or basic weakness takes
/// the player back whatever its type. Any other investigator, asset, event or
/// skill takes the player back; any other enemy, enemy location, treachery,
/// agenda, act, location, scenario, story or key takes the encounter back;
/// any other card takes no generic back.
pub proof fn built_cards_take_their_backs(ahdb_cards: Seq<AhdbCard>, cards: Seq<Card>, i: int)
    requires
        card_records(cards) == ahdb_cards.map_values(|c: AhdbCard| card_record_of(c)),
        0 <= i < ahdb_cards.len(),
    ensures
        cards.len() == ahdb_cards.len(),
        ({
            let c = ahdb_cards[i];
            let t = c.type_code@;
            let weakness = c.subtype_code matches Some(s) && (s@ == "weakness"@ || s@ == "basicweakness"@);
            let player = t == "investigator"@ || t == "asset"@ || t == "event"@ || t == "skill"@;
            let encounter = t == "enemy"@ || t == "enemy_location"@ || t == "treachery"@ || t == "agenda"@
                || t == "act"@ || t == "location"@ || t == "scenario"@ || t == "story"@ || t == "key"@;
            &&& weakness ==> opt_chars(cards[i].back_group) == Some("player"@)
            &&& !weakness && player ==> opt_chars(cards[i].back_group) == Some("player"@)
            &&& !weakness && encounter ==> opt_chars(cards[i].back_group) == Some("encounter"@)
            &&& !weakness && !player && !encounter ==> cards[i].back_group is None
        }),
{
    reveal_strlit("investigator");
    reveal_strlit("asset");
    reveal_strlit("event");
    reveal_strlit("skill");
    reveal_strlit("enemy");
    reveal_strlit("enemy_location");
    reveal_strlit("treachery");
    reveal_strlit("agenda");
    reveal_strlit("act");
    reveal_strlit("location");
    reveal_strlit("scenario");
    reveal_strlit("story");
    reveal_strlit("key");
    assert(card_records(cards).len() == ahdb_cards.len());
    assert(card_records(cards)[i] == cards[i]@);
    assert(card_records(cards)[i] == card_record_of(ahdb_cards[i]));
    let c = ahdb_cards[i];
    assert(opt_chars(c.subtype_code) == Some("weakness"@) <==> (c.subtype_code matches Some(s) && s@ == "weakness"@));
    assert(opt_chars(c.subtype_code) == Some("basicweakness"@) <==> (c.subtype_code matches Some(s) && s@ == "basicweakness"@));
    assert(opt_chars(cards[i].back_group) == back_group_of(c.type_code@, opt_chars(c.subtype_code)));
    if opt_chars(cards[i].back_group) is None {
        assert(cards[i].back_group is None);
    }
    let t = c.type_code@;
    let weakness = c.subtype_code matches Some(s) && (s@ == "weakness"@ || s@ == "basicweakness"@);
    let player = t == "investigator"@ || t == "asset"@ || t == "event"@ || t == "skill"@;
    let encounter = t == "enemy"@ || t == "enemy_location"@ || t == "treachery"@ || t == "agenda"@
        || t == "act"@ || t == "location"@ || t == "scenario"@ || t == "story"@ || t == "key"@;
    assert(weakness ==> opt_chars(cards[i].back_group) == Some("player"@));
    assert(!weakness && player ==> opt_chars(cards[i].back_group) == Some("player"@));
    if encounter {
        assert(t.len() != 5 || t[1] == 'n' || t[1] == 't');
        assert(t.len() != 12);
        assert("asset"@[1] == 's' && "event"@[1] == 'v' && "skill"@[1] == 'k');
        assert(!player);
    }
    assert(!weakness && encounter ==> opt_chars(cards[i].back_group) == Some("encounter"@));
    assert(!weakness && !player && !encounter ==> cards[i].back_group is None);
}

} // verus!
