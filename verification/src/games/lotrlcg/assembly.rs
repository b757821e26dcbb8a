//! How the Lord of the Rings catalog is put together from its four sources:
//! Hall of Beorn's card exports (less the promos filed under a foreign set),
//! RingsDB's packs (for release dates), the ALeP catalog, and RingsDB's cards.

use vstd::prelude::*;
use vstd::hash_map::StringHashMap;
use vstd::hash_set::StringHashSet;
use crate::catalog::{
    card_records, normalize_title, normalized_title, opt_chars, pack_records, version_records, Card,
    CardRecord, CardVersion, GameCatalog, Pack, PackRecord, VersionRecord,
};
use crate::games::lotrlcg::adapter::{all_prefixes_cut_cleanly, promo_slug_set, promo_slugs};
use crate::games::lotrlcg::models::{AlepCard, HobCard, RingsDbCard, RingsDbPack};
use crate::games::lotrlcg::{side_from_type_code, side_of_type_code};
use crate::text::{
    has_prefix, i64_to_decimal, int_decimal, lemma_int_decimal_injective, lemma_pair_key_injective,
    pair_key, pair_key_of, replace, replace_all, starts_with, str_eq,
};

verus! {

/// A pack name with the `ALeP - ` marker and the `.English` suffix taken out.
pub open spec fn clean_pack_name(name: Seq<char>) -> Seq<char> {
    replace_all(replace_all(name, "ALeP - "@, ""@), ".English"@, ""@)
}

/// The release date RingsDB gives the pack whose cleaned, normalized name is
/// `id`; the last such pack wins.
pub open spec fn release_date_for(packs: Seq<RingsDbPack>, id: Seq<char>) -> Option<Seq<char>>
    decreases packs.len(),
{
    if packs.len() == 0 {
        None
    } else if normalized_title(clean_pack_name(packs.last().name@)) == id {
        opt_chars(packs.last().available)
    } else {
        release_date_for(packs.drop_last(), id)
    }
}

/// The catalog as it stands part way through assembly, with the pack and
/// position pairs that already have a printing.
pub struct Assembly {
    pub packs: Seq<PackRecord>,
    pub cards: Seq<CardRecord>,
    pub versions: Seq<VersionRecord>,
    pub provided: Set<(Seq<char>, int)>,
}

pub open spec fn has_pack(packs: Seq<PackRecord>, id: Seq<char>) -> bool {
    exists|k: int| 0 <= k < packs.len() && #[trigger] packs[k].id == id
}

pub open spec fn has_card(cards: Seq<CardRecord>, id: Seq<char>) -> bool {
    exists|k: int| 0 <= k < cards.len() && #[trigger] cards[k].id == id
}

pub open spec fn has_version(versions: Seq<VersionRecord>, card_id: Seq<char>, pack_id: Seq<char>) -> bool {
    exists|k: int|
        0 <= k < versions.len() && #[trigger] versions[k].card_id == card_id && versions[k].pack_id
            == pack_id
}

/// The pack, appended unless a pack of its id is already there.
pub open spec fn add_pack(packs: Seq<PackRecord>, pack: PackRecord) -> Seq<PackRecord> {
    if has_pack(packs, pack.id) {
        packs
    } else {
        packs.push(pack)
    }
}

/// The card, appended unless a card of its id is already there.
pub open spec fn add_card(cards: Seq<CardRecord>, card: CardRecord) -> Seq<CardRecord> {
    if has_card(cards, card.id) {
        cards
    } else {
        cards.push(card)
    }
}

/// The printing, appended unless its card already has one in its pack; an
/// appended printing with a position marks that position of its pack as provided.
pub open spec fn add_version(st: Assembly, version: VersionRecord) -> Assembly {
    if has_version(st.versions, version.card_id, version.pack_id) {
        st
    } else {
        Assembly {
            provided: match version.position {
                Some(p) => st.provided.insert((version.pack_id, p as int)),
                None => st.provided,
            },
            versions: st.versions.push(version),
            ..st
        }
    }
}

/// Hall of Beorn card types, and the side of the table each belongs to.
pub open spec fn hob_side(card_type: Seq<char>) -> Seq<char> {
    if card_type == "Ally"@ || card_type == "Attachment"@ || card_type == "Contract"@ || card_type
        == "Event"@ || card_type == "Hero"@ || card_type == "Player_Side_Quest"@ || card_type
        == "Treasure"@ {
        "player"@
    } else if card_type == "Quest"@ || card_type == "Campaign"@ || card_type == "GenCon_Setup"@
        || card_type == "Nightmare_Setup"@ {
        "quest"@
    } else {
        "encounter"@
    }
}

/// The Hall of Beorn cards whose slug is not among the promos.
pub open spec fn without_promos(cards: Seq<HobCard>, promos: Set<Seq<char>>) -> Seq<HobCard>
    decreases cards.len(),
{
    if cards.len() == 0 {
        cards
    } else if promos.contains(cards.last().slug@) {
        without_promos(cards.drop_last(), promos)
    } else {
        without_promos(cards.drop_last(), promos).push(cards.last())
    }
}

/// One pack per card set of the Hall of Beorn cards, in order of first
/// appearance, dated from RingsDB.
pub open spec fn hob_packs(cards: Seq<HobCard>, dates: Seq<RingsDbPack>) -> Seq<PackRecord>
    decreases cards.len(),
{
    if cards.len() == 0 {
        Seq::empty()
    } else {
        let c = cards.last();
        let id = normalized_title(c.card_set@);
        add_pack(
            hob_packs(cards.drop_last(), dates),
            PackRecord { id: id, name: c.card_set@, date_release: release_date_for(dates, id) },
        )
    }
}

/// A Hall of Beorn card: its slug names the card, its card set the pack.
pub open spec fn hob_card_step(st: Assembly, c: HobCard) -> Assembly {
    let card_id = normalized_title(c.slug@);
    let pack_id = normalized_title(c.card_set@);
    let st1 = Assembly {
        cards: add_card(
            st.cards,
            CardRecord {
                id: card_id,
                title: c.title@,
                title_normalized: normalized_title(c.title@),
                side: Some(hob_side(c.card_type@)),
                back_group: None,
            },
        ),
        ..st
    };
    add_version(
        st1,
        VersionRecord {
            card_id: card_id,
            pack_id: pack_id,
            quantity: match c.quantity {
                Some(q) => q,
                None => 3,
            },
            position: Some(c.number),
            api_id: None,
        },
    )
}

pub open spec fn hob_cards_fold(st: Assembly, cards: Seq<HobCard>) -> Assembly
    decreases cards.len(),
{
    if cards.len() == 0 {
        st
    } else {
        hob_card_step(hob_cards_fold(st, cards.drop_last()), cards.last())
    }
}

pub open spec fn opt_u32_as_i64(v: Option<u32>) -> Option<i64> {
    match v {
        Some(p) => Some(p as i64),
        None => None,
    }
}

/// The assembly with its packs replaced.
pub open spec fn with_packs(st: Assembly, packs: Seq<PackRecord>) -> Assembly {
    Assembly { packs: packs, ..st }
}

/// The assembly with its cards replaced.
pub open spec fn with_cards(st: Assembly, cards: Seq<CardRecord>) -> Assembly {
    Assembly { cards: cards, ..st }
}

/// The pack of id `pack_id` renamed to `display`, unless its name already
/// carries the `ALeP - ` marker.
pub open spec fn renamed_to_alep(packs: Seq<PackRecord>, pack_id: Seq<char>, display: Seq<char>) -> Seq<PackRecord> {
    packs.map_values(
        |p: PackRecord|
            if p.id == pack_id && !has_prefix(p.name, "ALeP - "@) {
                PackRecord { name: display, ..p }
            } else {
                p
            },
    )
}

/// The pack of id `pack_id` given the ALeP name `display` when the card is an
/// ALeP card and the name lacks the marker, and `date` when it has no release date.
pub open spec fn updated_from_ringsdb(
    packs: Seq<PackRecord>,
    pack_id: Seq<char>,
    is_alep: bool,
    display: Seq<char>,
    date: Option<Seq<char>>,
) -> Seq<PackRecord> {
    packs.map_values(
        |p: PackRecord|
            if p.id == pack_id {
                PackRecord {
                    id: p.id,
                    name: if is_alep && !has_prefix(p.name, "ALeP - "@) {
                        display
                    } else {
                        p.name
                    },
                    date_release: if p.date_release is None {
                        date
                    } else {
                        p.date_release
                    },
                }
            } else {
                p
            },
    )
}

/// A fan-made ALeP card (official ones are skipped): its pack is named
/// `ALeP - {pack}`, which also renames a pack of that id met before under
/// another name, and its id is its name joined to its pack id.
pub open spec fn alep_step(st: Assembly, rc: AlepCard, dates: Seq<RingsDbPack>) -> Assembly {
    if match rc.is_official {
        Some(b) => b,
        None => true,
    } {
        st
    } else {
        let clean = clean_pack_name(rc.pack_name@);
        let display = "ALeP - "@ + clean;
        let pack_id = normalized_title(clean);
        let card_id = normalized_title(rc.name@ + "-"@ + pack_id);
        let packs = if !has_pack(st.packs, pack_id) {
            st.packs.push(
                PackRecord { id: pack_id, name: display, date_release: release_date_for(dates, pack_id) },
            )
        } else {
            renamed_to_alep(st.packs, pack_id, display)
        };
        let cards = add_card(
            st.cards,
            CardRecord {
                id: card_id,
                title: rc.name@,
                title_normalized: normalized_title(rc.name@),
                side: Some(side_of_type_code(opt_chars(rc.type_code))),
                back_group: None,
            },
        );
        add_version(
            Assembly { packs: packs, cards: cards, ..st },
            VersionRecord {
                card_id: card_id,
                pack_id: pack_id,
                quantity: match rc.quantity {
                    Some(q) => q as i64,
                    None => 3,
                },
                position: opt_u32_as_i64(rc.position),
                api_id: None,
            },
        )
    }
}

pub open spec fn alep_fold(st: Assembly, cards: Seq<AlepCard>, dates: Seq<RingsDbPack>) -> Assembly
    decreases cards.len(),
{
    if cards.len() == 0 {
        st
    } else {
        alep_step(alep_fold(st, cards.drop_last(), dates), cards.last(), dates)
    }
}

/// The pack name of a RingsDB card less `.English`.
pub open spec fn ringsdb_base_name(pack_name: Seq<char>) -> Seq<char> {
    replace_all(pack_name, ".English"@, ""@)
}

/// Whether a RingsDB card comes from an ALeP pack.
pub open spec fn ringsdb_is_alep(pack_name: Seq<char>) -> bool {
    has_prefix(ringsdb_base_name(pack_name), "ALeP - "@)
}

/// The pack name of a RingsDB card with the `ALeP - ` marker taken out.
pub open spec fn ringsdb_clean_name(pack_name: Seq<char>) -> Seq<char> {
    if ringsdb_is_alep(pack_name) {
        replace_all(ringsdb_base_name(pack_name), "ALeP - "@, ""@)
    } else {
        ringsdb_base_name(pack_name)
    }
}

/// The name a RingsDB card's pack is shown under.
pub open spec fn ringsdb_display_name(pack_name: Seq<char>) -> Seq<char> {
    if ringsdb_is_alep(pack_name) {
        "ALeP - "@ + ringsdb_clean_name(pack_name)
    } else {
        ringsdb_clean_name(pack_name)
    }
}

/// A RingsDB card. Its pack is added, or the pack of its id already there
/// takes the ALeP name of an ALeP card and a release date it lacked. A card
/// at a position of its pack that already has a printing is then passed over.
pub open spec fn ringsdb_step(st: Assembly, rc: RingsDbCard, dates: Seq<RingsDbPack>) -> Assembly {
    let is_alep = ringsdb_is_alep(rc.pack_name@);
    let display = ringsdb_display_name(rc.pack_name@);
    let pack_id = normalized_title(ringsdb_clean_name(rc.pack_name@));
    let card_id = normalized_title(rc.name@ + "-"@ + pack_id);
    let packs = if !has_pack(st.packs, pack_id) {
        st.packs.push(
            PackRecord { id: pack_id, name: display, date_release: release_date_for(dates, pack_id) },
        )
    } else {
        updated_from_ringsdb(st.packs, pack_id, is_alep, display, release_date_for(dates, pack_id))
    };
    let st1 = Assembly { packs: packs, ..st };
    if rc.position matches Some(pos) && st.provided.contains((pack_id, pos as int)) {
        st1
    } else {
        let cards = add_card(
            st1.cards,
            CardRecord {
                id: card_id,
                title: rc.name@,
                title_normalized: normalized_title(rc.name@),
                side: Some(side_of_type_code(opt_chars(rc.type_code))),
                back_group: None,
            },
        );
        add_version(
            Assembly { cards: cards, ..st1 },
            VersionRecord {
                card_id: card_id,
                pack_id: pack_id,
                quantity: match rc.quantity {
                    Some(q) => q as i64,
                    None => 3,
                },
                position: opt_u32_as_i64(rc.position),
                api_id: None,
            },
        )
    }
}

pub open spec fn ringsdb_fold(st: Assembly, cards: Seq<RingsDbCard>, dates: Seq<RingsDbPack>) -> Assembly
    decreases cards.len(),
{
    if cards.len() == 0 {
        st
    } else {
        ringsdb_step(ringsdb_fold(st, cards.drop_last(), dates), cards.last(), dates)
    }
}

/// The whole assembly: Hall of Beorn less its promos (packs first, then cards),
/// then the ALeP cards, then the RingsDB cards.
pub open spec fn lotr_assembly(
    hob: Seq<HobCard>,
    dates: Seq<RingsDbPack>,
    alep: Seq<AlepCard>,
    ringsdb: Seq<RingsDbCard>,
) -> Assembly {
    let kept = without_promos(hob, promo_slug_set(hob));
    let start = Assembly {
        packs: hob_packs(kept, dates),
        cards: Seq::empty(),
        versions: Seq::empty(),
        provided: Set::empty(),
    };
    ringsdb_fold(alep_fold(hob_cards_fold(start, kept), alep, dates), ringsdb, dates)
}

} // verus!

verus! {

/// The catalog being assembled, with indexes that answer "is this pack, card,
/// printing or position already there" without a scan.
struct CatalogBuilder {
    packs: Vec<Pack>,
    pack_index: StringHashMap<usize>,
    cards: Vec<Card>,
    card_ids: StringHashSet,
    versions: Vec<CardVersion>,
    version_keys: StringHashSet,
    provided: StringHashSet,
    provided_pairs: Ghost<Set<(Seq<char>, int)>>,
}

impl CatalogBuilder {
    spec fn assembly(&self) -> Assembly {
        Assembly {
            packs: pack_records(self.packs@),
            cards: card_records(self.cards@),
            versions: version_records(self.versions@),
            provided: self.provided_pairs@,
        }
    }

    spec fn packs_indexed(&self) -> bool {
        &&& forall|id: Seq<char>|
            #[trigger] self.pack_index@.contains_key(id) ==> {
                &&& self.pack_index@[id] < self.packs.len()
                &&& self.packs@[self.pack_index@[id] as int].id@ == id
            }
        &&& forall|k: int|
            0 <= k < self.packs.len() ==> self.pack_index@.contains_key(#[trigger] self.packs@[k].id@)
        &&& forall|i: int, j: int|
            0 <= i < self.packs.len() && 0 <= j < self.packs.len() && i != j ==> #[trigger] self.packs@[i].id@
                != #[trigger] self.packs@[j].id@
    }

    spec fn wf(&self) -> bool {
        &&& self.packs_indexed()
        &&& self.card_ids@ == Set::new(|id: Seq<char>| has_card(card_records(self.cards@), id))
        &&& self.version_keys@ == Set::new(
            |key: Seq<char>|
                exists|k: int|
                    0 <= k < self.versions.len() && key == #[trigger] pair_key_of(
                        self.versions@[k].card_id@,
                        self.versions@[k].pack_id@,
                    ),
        )
        &&& self.provided@ == Set::new(
            |key: Seq<char>|
                exists|p: Seq<char>, n: int|
                    #[trigger] self.provided_pairs@.contains((p, n)) && key == pair_key_of(
                        p,
                        int_decimal(n),
                    ),
        )
    }

    fn new() -> (b: Self)
        ensures
            b.wf(),
            b.assembly().packs.len() == 0,
            b.assembly().cards.len() == 0,
            b.assembly().versions.len() == 0,
            b.assembly().provided == Set::<(Seq<char>, int)>::empty(),
    {
        let b = CatalogBuilder {
            packs: Vec::new(),
            pack_index: StringHashMap::new(),
            cards: Vec::new(),
            card_ids: StringHashSet::new(),
            versions: Vec::new(),
            version_keys: StringHashSet::new(),
            provided: StringHashSet::new(),
            provided_pairs: Ghost(Set::empty()),
        };
        assert(b.card_ids@ =~= Set::new(|id: Seq<char>| has_card(card_records(b.cards@), id)));
        assert(b.version_keys@ =~= Set::new(
            |key: Seq<char>|
                exists|k: int|
                    0 <= k < b.versions.len() && key == #[trigger] pair_key_of(
                        b.versions@[k].card_id@,
                        b.versions@[k].pack_id@,
                    ),
        ));
        assert(b.provided@ =~= Set::new(
            |key: Seq<char>|
                exists|p: Seq<char>, n: int|
                    #[trigger] b.provided_pairs@.contains((p, n)) && key == pair_key_of(
                        p,
                        int_decimal(n),
                    ),
        ));
        b
    }

    fn contains_pack(&self, id: &str) -> (res: bool)
        requires
            self.wf(),
        ensures
            res == has_pack(self.assembly().packs, id@),
    {
        let res = self.pack_index.contains_key(id);
        proof {
            let packs = self.assembly().packs;
            if res {
                let k = self.pack_index@[id@] as int;
                assert(packs[k].id == id@);
            } else {
                assert forall|k: int| 0 <= k < packs.len() implies #[trigger] packs[k].id != id@ by {
                    assert(self.pack_index@.contains_key(self.packs@[k].id@));
                }
            }
        }
        res
    }

    #[verifier::spinoff_prover]
    fn add_pack(&mut self, pack: Pack)
        requires
            old(self).wf(),
        ensures
            final(self).wf(),
            final(self).assembly() == with_packs(
                old(self).assembly(),
                add_pack(old(self).assembly().packs, pack@),
            ),
    {
        if !self.contains_pack(pack.id.as_str()) {
            let idx = self.packs.len();
            let ghost old_packs = self.packs@;
            self.pack_index.insert(pack.id.clone(), idx);
            self.packs.push(pack);
            proof {
                assert(pack_records(self.packs@) =~= pack_records(old_packs).push(pack@));
                assert forall|k: int| 0 <= k < old_packs.len() implies #[trigger] old_packs[k].id@ != pack.id@ by {
                    assert(pack_records(old_packs)[k].id == old_packs[k].id@);
                }
            }
        }
    }

    /// Renames the pack of id `pack_id`, which is there, to `display` unless
    /// its name already starts with `ALeP - `.
    fn rename_to_alep(&mut self, pack_id: &str, display: &String)
        requires
            old(self).wf(),
            has_pack(old(self).assembly().packs, pack_id@),
        ensures
            final(self).wf(),
            final(self).assembly() == with_packs(
                old(self).assembly(),
                renamed_to_alep(old(self).assembly().packs, pack_id@, display@),
            ),
    {
        let ghost old_records = self.assembly().packs;
        proof {
            let k = choose|k: int| 0 <= k < old_records.len() && #[trigger] old_records[k].id == pack_id@;
            assert(self.pack_index@.contains_key(self.packs@[k].id@));
        }
        let idx: usize = match self.pack_index.get(pack_id) {
            Some(i) => *i,
            None => 0,
        };
        assert(self.packs@[idx as int].id@ == pack_id@);
        if !starts_with(self.packs[idx].name.as_str(), "ALeP - ") {
            let renamed = Pack {
                id: self.packs[idx].id.clone(),
                name: display.clone(),
                date_release: match &self.packs[idx].date_release {
                    Some(d) => Some(d.clone()),
                    None => None,
                },
            };
            self.packs.set(idx, renamed);
        }
        proof {
            let target = renamed_to_alep(old_records, pack_id@, display@);
            assert forall|k: int| 0 <= k < target.len() implies #[trigger] pack_records(self.packs@)[k] == target[k] by {
                if k != idx {
                    assert(old_records[k].id != pack_id@);
                }
            }
            assert(pack_records(self.packs@) =~= target);
            assert forall|k: int| 0 <= k < self.packs.len() implies #[trigger] self.packs@[k].id@
                == old(self).packs@[k].id@ by {
                if k != idx {
                    assert(self.packs@[k] == old(self).packs@[k]);
                }
            }
            assert(self.packs_indexed());
        }
    }

    /// Gives the pack of id `pack_id`, which is there, the ALeP name `display`
    /// when `is_alep` and its name lacks the marker, and `date` when it has no
    /// release date.
    fn update_from_ringsdb(&mut self, pack_id: &str, is_alep: bool, display: &String, date: &Option<String>)
        requires
            old(self).wf(),
            has_pack(old(self).assembly().packs, pack_id@),
        ensures
            final(self).wf(),
            final(self).assembly() == with_packs(
                old(self).assembly(),
                updated_from_ringsdb(old(self).assembly().packs, pack_id@, is_alep, display@, opt_chars(*date)),
            ),
    {
        let ghost old_records = self.assembly().packs;
        proof {
            let k = choose|k: int| 0 <= k < old_records.len() && #[trigger] old_records[k].id == pack_id@;
            assert(self.pack_index@.contains_key(self.packs@[k].id@));
        }
        let idx: usize = match self.pack_index.get(pack_id) {
            Some(i) => *i,
            None => 0,
        };
        assert(self.packs@[idx as int].id@ == pack_id@);
        let name = if is_alep && !starts_with(self.packs[idx].name.as_str(), "ALeP - ") {
            display.clone()
        } else {
            self.packs[idx].name.clone()
        };
        let date_release = match &self.packs[idx].date_release {
            Some(d) => Some(d.clone()),
            None => match date {
                Some(d) => Some(d.clone()),
                None => None,
            },
        };
        let updated = Pack { id: self.packs[idx].id.clone(), name, date_release };
        self.packs.set(idx, updated);
        proof {
            let target = updated_from_ringsdb(old_records, pack_id@, is_alep, display@, opt_chars(*date));
            assert forall|k: int| 0 <= k < target.len() implies #[trigger] pack_records(self.packs@)[k] == target[k] by {
                if k != idx {
                    assert(old_records[k].id != pack_id@);
                }
            }
            assert(pack_records(self.packs@) =~= target);
            assert forall|k: int| 0 <= k < self.packs.len() implies #[trigger] self.packs@[k].id@
                == old(self).packs@[k].id@ by {
                if k != idx {
                    assert(self.packs@[k] == old(self).packs@[k]);
                }
            }
            assert(self.packs_indexed());
        }
    }

    fn add_card(&mut self, card: Card)
        requires
            old(self).wf(),
        ensures
            final(self).wf(),
            final(self).assembly() == with_cards(
                old(self).assembly(),
                add_card(old(self).assembly().cards, card@),
            ),
    {
        if !self.card_ids.contains(card.id.as_str()) {
            let ghost old_cards = self.cards@;
            self.card_ids.insert(card.id.clone());
            self.cards.push(card);
            proof {
                assert(card_records(self.cards@) =~= card_records(old_cards).push(card@));
                assert forall|id: Seq<char>| has_card(card_records(self.cards@), id) == (has_card(card_records(old_cards), id) || id == card@.id) by {
                    if id == card@.id {
                        assert(card_records(self.cards@)[old_cards.len() as int].id == id);
                    }
                    if has_card(card_records(self.cards@), id) && id != card@.id {
                        let k = choose|k: int| 0 <= k < card_records(self.cards@).len() && #[trigger] card_records(self.cards@)[k].id == id;
                        assert(card_records(old_cards)[k].id == id);
                    }
                    if has_card(card_records(old_cards), id) {
                        let k = choose|k: int| 0 <= k < card_records(old_cards).len() && #[trigger] card_records(old_cards)[k].id == id;
                        assert(card_records(self.cards@)[k].id == id);
                    }
                }
                assert(self.card_ids@ =~= Set::new(|id: Seq<char>| has_card(card_records(self.cards@), id)));
            }
        }
    }

    fn add_version(&mut self, version: CardVersion)
        requires
            old(self).wf(),
        ensures
            final(self).wf(),
            final(self).assembly() == add_version(old(self).assembly(), version@),
    {
        let key = pair_key(version.card_id.as_str(), version.pack_id.as_str());
        let ghost old_versions = self.versions@;
        let ghost versions_before = version_records(old_versions);
        proof {
            assert(self.version_keys@.contains(key@) == has_version(versions_before, version@.card_id, version@.pack_id)) by {
                if self.version_keys@.contains(key@) {
                    let k = choose|k: int|
                        0 <= k < old_versions.len() && key@ == #[trigger] pair_key_of(
                            old_versions[k].card_id@,
                            old_versions[k].pack_id@,
                        );
                    lemma_pair_key_injective(old_versions[k].card_id@, old_versions[k].pack_id@, version.card_id@, version.pack_id@);
                    assert(versions_before[k].card_id == version@.card_id);
                }
                if has_version(versions_before, version@.card_id, version@.pack_id) {
                    let k = choose|k: int|
                        0 <= k < versions_before.len() && #[trigger] versions_before[k].card_id == version@.card_id && versions_before[k].pack_id
                            == version@.pack_id;
                    assert(key@ == pair_key_of(old_versions[k].card_id@, old_versions[k].pack_id@));
                }
            }
        }
        if !self.version_keys.contains(key.as_str()) {
            self.version_keys.insert(key);
            match version.position {
                Some(p) => {
                    let digits = i64_to_decimal(p);
                    let pkey = pair_key(version.pack_id.as_str(), digits.as_str());
                    let ghost old_provided = self.provided@;
                    let ghost old_pairs = self.provided_pairs@;
                    self.provided.insert(pkey);
                    self.provided_pairs = Ghost(self.provided_pairs@.insert((version.pack_id@, p as int)));
                    proof {
                        assert(self.provided@ =~= Set::new(
                            |k: Seq<char>|
                                exists|q: Seq<char>, n: int|
                                    #[trigger] self.provided_pairs@.contains((q, n)) && k == pair_key_of(
                                        q,
                                        int_decimal(n),
                                    ),
                        )) by {
                            assert forall|k: Seq<char>| self.provided@.contains(k) implies exists|q: Seq<char>, n: int|
                                    #[trigger] self.provided_pairs@.contains((q, n)) && k == pair_key_of(
                                        q,
                                        int_decimal(n),
                                    ) by {
                                if k == pkey@ {
                                    assert(self.provided_pairs@.contains((version.pack_id@, p as int)));
                                } else {
                                    assert(old_provided.contains(k));
                                    let (q, n) = choose|q: Seq<char>, n: int|
                                        #[trigger] old_pairs.contains((q, n)) && k == pair_key_of(q, int_decimal(n));
                                    assert(self.provided_pairs@.contains((q, n)));
                                }
                            }
                            assert forall|k: Seq<char>| (exists|q: Seq<char>, n: int|
                                    #[trigger] self.provided_pairs@.contains((q, n)) && k == pair_key_of(
                                        q,
                                        int_decimal(n),
                                    )) implies self.provided@.contains(k) by {
                                let (q, n) = choose|q: Seq<char>, n: int|
                                    #[trigger] self.provided_pairs@.contains((q, n)) && k == pair_key_of(q, int_decimal(n));
                                if (q, n) != (version.pack_id@, p as int) {
                                    assert(old_pairs.contains((q, n)));
                                    assert(old_provided.contains(k));
                                }
                            }
                        }
                    }
                },
                None => {},
            }
            self.versions.push(version);
            proof {
                assert(version_records(self.versions@) =~= versions_before.push(version@));
                assert(self.version_keys@ =~= Set::new(
                    |k: Seq<char>|
                        exists|j: int|
                            0 <= j < self.versions.len() && k == #[trigger] pair_key_of(
                                self.versions@[j].card_id@,
                                self.versions@[j].pack_id@,
                            ),
                )) by {
                    assert forall|k: Seq<char>| self.version_keys@.contains(k) implies exists|j: int|
                            0 <= j < self.versions.len() && k == #[trigger] pair_key_of(
                                self.versions@[j].card_id@,
                                self.versions@[j].pack_id@,
                            ) by {
                        if k == key@ {
                            assert(k == pair_key_of(self.versions@[old_versions.len() as int].card_id@, self.versions@[old_versions.len() as int].pack_id@));
                        } else {
                            let j = choose|j: int|
                                0 <= j < old_versions.len() && k == #[trigger] pair_key_of(
                                    old_versions[j].card_id@,
                                    old_versions[j].pack_id@,
                                );
                            assert(self.versions@[j] == old_versions[j]);
                        }
                    }
                    assert forall|k: Seq<char>| (exists|j: int|
                            0 <= j < self.versions.len() && k == #[trigger] pair_key_of(
                                self.versions@[j].card_id@,
                                self.versions@[j].pack_id@,
                            )) implies self.version_keys@.contains(k) by {
                        let j = choose|j: int|
                            0 <= j < self.versions.len() && k == #[trigger] pair_key_of(
                                self.versions@[j].card_id@,
                                self.versions@[j].pack_id@,
                            );
                        if j < old_versions.len() {
                            assert(self.versions@[j] == old_versions[j]);
                        }
                    }
                }
            }
        }
    }

    fn is_provided(&self, pack_id: &str, position: i64) -> (res: bool)
        requires
            self.wf(),
        ensures
            res == self.assembly().provided.contains((pack_id@, position as int)),
    {
        let digits = i64_to_decimal(position);
        let key = pair_key(pack_id, digits.as_str());
        let res = self.provided.contains(key.as_str());
        proof {
            if res {
                let (q, n) = choose|q: Seq<char>, n: int|
                    #[trigger] self.provided_pairs@.contains((q, n)) && key@ == pair_key_of(q, int_decimal(n));
                lemma_pair_key_injective(q, int_decimal(n), pack_id@, int_decimal(position as int));
                lemma_int_decimal_injective(n, position as int);
            }
            if self.provided_pairs@.contains((pack_id@, position as int)) {
                assert(self.provided@.contains(key@));
            }
        }
        res
    }
}

} // verus!

verus! {

/// `clean_pack_name` as a string.
pub fn clean_pack_name_of(name: &str) -> (clean: String)
    ensures
        clean@ == clean_pack_name(name@),
{
    proof {
        reveal_strlit("ALeP - ");
        reveal_strlit(".English");
    }
    let without_marker = replace(name, "ALeP - ", "");
    replace(without_marker.as_str(), ".English", "")
}

/// The release dates RingsDB gives, by cleaned and normalized pack name.
fn release_dates(dates: &Vec<RingsDbPack>) -> (m: StringHashMap<Option<String>>)
    ensures
        forall|id: Seq<char>|
            #[trigger] release_date_for(dates@, id) == if m@.contains_key(id) {
                opt_chars(m@[id])
            } else {
                None
            },
{
    let mut m: StringHashMap<Option<String>> = StringHashMap::new();
    let mut i: usize = 0;
    while i < dates.len()
        invariant
            i <= dates.len(),
            forall|id: Seq<char>|
                #[trigger] release_date_for(dates@.take(i as int), id) == if m@.contains_key(id) {
                    opt_chars(m@[id])
                } else {
                    None
                },
        decreases dates.len() - i,
    {
        let clean = clean_pack_name_of(dates[i].name.as_str());
        let key = normalize_title(clean.as_str());
        let available = match &dates[i].available {
            Some(d) => Some(d.clone()),
            None => None,
        };
        let ghost old_m = m@;
        m.insert(key, available);
        proof {
            let prev = dates@.take(i as int);
            let next = dates@.take(i + 1);
            assert(next.drop_last() =~= prev);
            assert(next.last() == dates@[i as int]);
            assert forall|id: Seq<char>|
                #[trigger] release_date_for(next, id) == if m@.contains_key(id) {
                    opt_chars(m@[id])
                } else {
                    None
                } by {
                if id != key@ {
                    assert(release_date_for(prev, id) == if old_m.contains_key(id) {
                        opt_chars(old_m[id])
                    } else {
                        None
                    });
                }
            }
        }
        i += 1;
    }
    assert(dates@.take(dates.len() as int) =~= dates@);
    m
}

fn date_for(m: &StringHashMap<Option<String>>, id: &str, dates: &Vec<RingsDbPack>) -> (date: Option<String>)
    requires
        forall|k: Seq<char>|
            #[trigger] release_date_for(dates@, k) == if m@.contains_key(k) {
                opt_chars(m@[k])
            } else {
                None
            },
    ensures
        opt_chars(date) == release_date_for(dates@, id@),
{
    match m.get(id) {
        Some(d) => match d {
            Some(s) => Some(s.clone()),
            None => None,
        },
        None => None,
    }
}

fn hob_side_of(card_type: &str) -> (side: &'static str)
    ensures
        side@ == hob_side(card_type@),
{
    if str_eq(card_type, "Ally") || str_eq(card_type, "Attachment") || str_eq(card_type, "Contract")
        || str_eq(card_type, "Event") || str_eq(card_type, "Hero") || str_eq(
        card_type,
        "Player_Side_Quest",
    ) || str_eq(card_type, "Treasure") {
        "player"
    } else if str_eq(card_type, "Quest") || str_eq(card_type, "Campaign") || str_eq(
        card_type,
        "GenCon_Setup",
    ) || str_eq(card_type, "Nightmare_Setup") {
        "quest"
    } else {
        "encounter"
    }
}

fn add_hob_card(b: &mut CatalogBuilder, c: &HobCard)
    requires
        old(b).wf(),
    ensures
        final(b).wf(),
        final(b).assembly() == hob_card_step(old(b).assembly(), *c),
{
    let card_id = normalize_title(c.slug.as_str());
    let pack_id = normalize_title(c.card_set.as_str());
    let title_normalized = normalize_title(c.title.as_str());
    let side = hob_side_of(c.card_type.as_str());
    b.add_card(
        Card {
            id: card_id.clone(),
            title: c.title.clone(),
            title_normalized,
            side: Some(String::from_str(side)),
            back_group: None,
        },
    );
    b.add_version(
        CardVersion {
            card_id,
            pack_id,
            quantity: match c.quantity {
                Some(q) => q,
                None => 3,
            },
            position: Some(c.number),
            api_id: None,
        },
    );
}

fn side_string(type_code: &Option<String>) -> (side: String)
    ensures
        side@ == side_of_type_code(opt_chars(*type_code)),
{
    let t = match type_code {
        Some(t) => Some(t.as_str()),
        None => None,
    };
    String::from_str(side_from_type_code(t))
}

fn opt_position(p: Option<u32>) -> (res: Option<i64>)
    ensures
        res == opt_u32_as_i64(p),
{
    match p {
        Some(p) => Some(p as i64),
        None => None,
    }
}

fn card_id_for(name: &str, pack_id: &String) -> (id: String)
    ensures
        id@ == normalized_title(name@ + "-"@ + pack_id@),
{
    let mut joined = String::from_str(name);
    joined.append("-");
    joined.append(pack_id.as_str());
    normalize_title(joined.as_str())
}

fn add_alep_card(b: &mut CatalogBuilder, rc: &AlepCard, m: &StringHashMap<Option<String>>, dates: &Vec<RingsDbPack>)
    requires
        old(b).wf(),
        forall|k: Seq<char>|
            #[trigger] release_date_for(dates@, k) == if m@.contains_key(k) {
                opt_chars(m@[k])
            } else {
                None
            },
    ensures
        final(b).wf(),
        final(b).assembly() == alep_step(old(b).assembly(), *rc, dates@),
{
    let official = match rc.is_official {
        Some(o) => o,
        None => true,
    };
    if official {
        return;
    }
    let clean = clean_pack_name_of(rc.pack_name.as_str());
    let mut display = String::from_str("ALeP - ");
    display.append(clean.as_str());
    let pack_id = normalize_title(clean.as_str());
    let card_id = card_id_for(rc.name.as_str(), &pack_id);
    if !b.contains_pack(pack_id.as_str()) {
        let date = date_for(m, pack_id.as_str(), dates);
        b.add_pack(Pack { id: pack_id.clone(), name: display, date_release: date });
    } else {
        b.rename_to_alep(pack_id.as_str(), &display);
    }
    let title_normalized = normalize_title(rc.name.as_str());
    let side = side_string(&rc.type_code);
    b.add_card(
        Card { id: card_id.clone(), title: rc.name.clone(), title_normalized, side: Some(side), back_group: None },
    );
    b.add_version(
        CardVersion {
            card_id,
            pack_id,
            quantity: match rc.quantity {
                Some(q) => q as i64,
                None => 3,
            },
            position: opt_position(rc.position),
            api_id: None,
        },
    );
}

fn add_ringsdb_card(b: &mut CatalogBuilder, rc: &RingsDbCard, m: &StringHashMap<Option<String>>, dates: &Vec<RingsDbPack>)
    requires
        old(b).wf(),
        forall|k: Seq<char>|
            #[trigger] release_date_for(dates@, k) == if m@.contains_key(k) {
                opt_chars(m@[k])
            } else {
                None
            },
    ensures
        final(b).wf(),
        final(b).assembly() == ringsdb_step(old(b).assembly(), *rc, dates@),
{
    proof {
        reveal_strlit("ALeP - ");
        reveal_strlit(".English");
    }
    let base = replace(rc.pack_name.as_str(), ".English", "");
    let is_alep = starts_with(base.as_str(), "ALeP - ");
    let clean = if is_alep {
        replace(base.as_str(), "ALeP - ", "")
    } else {
        base
    };
    let display = if is_alep {
        let mut d = String::from_str("ALeP - ");
        d.append(clean.as_str());
        d
    } else {
        clean.clone()
    };
    let pack_id = normalize_title(clean.as_str());
    let card_id = card_id_for(rc.name.as_str(), &pack_id);
    let date = date_for(m, pack_id.as_str(), dates);
    if !b.contains_pack(pack_id.as_str()) {
        b.add_pack(Pack { id: pack_id.clone(), name: display, date_release: date });
    } else {
        b.update_from_ringsdb(pack_id.as_str(), is_alep, &display, &date);
    }
    let already = match rc.position {
        Some(pos) => b.is_provided(pack_id.as_str(), pos as i64),
        None => false,
    };
    if already {
        return;
    }
    let title_normalized = normalize_title(rc.name.as_str());
    let side = side_string(&rc.type_code);
    b.add_card(
        Card { id: card_id.clone(), title: rc.name.clone(), title_normalized, side: Some(side), back_group: None },
    );
    b.add_version(
        CardVersion {
            card_id,
            pack_id,
            quantity: match rc.quantity {
                Some(q) => q as i64,
                None => 3,
            },
            position: opt_position(rc.position),
            api_id: None,
        },
    );
}

} // verus!

verus! {

/// The Hall of Beorn cards without the given promos, in order.
fn drop_promos(cards: Vec<HobCard>, promos: &StringHashSet) -> (kept: Vec<HobCard>)
    ensures
        kept@ == without_promos(cards@, promos@),
{
    let mut kept: Vec<HobCard> = Vec::new();
    let ghost all = cards@;
    for c in it: cards.into_iter()
        invariant
            it.seq() == all,
            kept@ == without_promos(all.take(it.index() as int), promos@),
    {
        proof {
            let i = it.index() as int;
            assert(all.take(i + 1).drop_last() =~= all.take(i));
        }
        if !promos.contains(c.slug.as_str()) {
            kept.push(c);
        }
    }
    assert(all.take(all.len() as int) =~= all);
    kept
}

/// The Lord of the Rings catalog from Hall of Beorn's cards (player, encounter
/// and quest exports, in that order), RingsDB's packs, the ALeP catalog and
/// RingsDB's cards, as `lotr_assembly` describes it.
pub fn assemble_lotr_catalog(
    hob_cards: Vec<HobCard>,
    ringsdb_packs: Vec<RingsDbPack>,
    alep_cards: Vec<AlepCard>,
    ringsdb_cards: Vec<RingsDbCard>,
) -> (catalog: GameCatalog)
    requires
        all_prefixes_cut_cleanly(hob_cards@),
    ensures
        catalog.game_id@ == "lotrlcg"@,
        catalog.display_name@ == "Lord of the Rings LCG"@,
        pack_records(catalog.packs@) == lotr_assembly(hob_cards@, ringsdb_packs@, alep_cards@, ringsdb_cards@).packs,
        card_records(catalog.cards@) == lotr_assembly(hob_cards@, ringsdb_packs@, alep_cards@, ringsdb_cards@).cards,
        version_records(catalog.card_versions@) == lotr_assembly(hob_cards@, ringsdb_packs@, alep_cards@, ringsdb_cards@).versions,
{
    let ghost all_hob = hob_cards@;
    let promos = promo_slugs(hob_cards.as_slice());
    let kept = drop_promos(hob_cards, &promos);
    let dates = release_dates(&ringsdb_packs);
    let mut b = CatalogBuilder::new();
    let ghost start = b.assembly();
    proof {
        assert(start.packs =~= Seq::<PackRecord>::empty());
        assert(start.cards =~= Seq::<CardRecord>::empty());
        assert(start.versions =~= Seq::<VersionRecord>::empty());
        assert(kept@.take(0) =~= Seq::<HobCard>::empty());
        assert(with_packs(start, hob_packs(kept@.take(0), ringsdb_packs@)) == start);
    }

    let mut i: usize = 0;
    while i < kept.len()
        invariant
            i <= kept.len(),
            b.wf(),
            b.assembly() == with_packs(start, hob_packs(kept@.take(i as int), ringsdb_packs@)),
            start.packs.len() == 0,
            forall|k: Seq<char>|
                #[trigger] release_date_for(ringsdb_packs@, k) == if dates@.contains_key(k) {
                    opt_chars(dates@[k])
                } else {
                    None
                },
        decreases kept.len() - i,
    {
        let id = normalize_title(kept[i].card_set.as_str());
        let date = date_for(&dates, id.as_str(), &ringsdb_packs);
        b.add_pack(Pack { id, name: kept[i].card_set.clone(), date_release: date });
        proof {
            assert(kept@.take(i + 1).drop_last() =~= kept@.take(i as int));
        }
        i += 1;
    }
    assert(kept@.take(kept.len() as int) =~= kept@);
    assert(start.packs =~= Seq::<PackRecord>::empty());
    let ghost after_packs = b.assembly();
    assert(kept@.take(0) =~= Seq::<HobCard>::empty());

    let mut i: usize = 0;
    while i < kept.len()
        invariant
            i <= kept.len(),
            b.wf(),
            b.assembly() == hob_cards_fold(after_packs, kept@.take(i as int)),
        decreases kept.len() - i,
    {
        add_hob_card(&mut b, &kept[i]);
        proof {
            assert(kept@.take(i + 1).drop_last() =~= kept@.take(i as int));
        }
        i += 1;
    }
    let ghost after_hob = b.assembly();
    assert(alep_cards@.take(0) =~= Seq::<AlepCard>::empty());

    let mut i: usize = 0;
    while i < alep_cards.len()
        invariant
            i <= alep_cards.len(),
            b.wf(),
            b.assembly() == alep_fold(after_hob, alep_cards@.take(i as int), ringsdb_packs@),
            forall|k: Seq<char>|
                #[trigger] release_date_for(ringsdb_packs@, k) == if dates@.contains_key(k) {
                    opt_chars(dates@[k])
                } else {
                    None
                },
        decreases alep_cards.len() - i,
    {
        add_alep_card(&mut b, &alep_cards[i], &dates, &ringsdb_packs);
        proof {
            assert(alep_cards@.take(i + 1).drop_last() =~= alep_cards@.take(i as int));
        }
        i += 1;
    }
    assert(alep_cards@.take(alep_cards.len() as int) =~= alep_cards@);
    let ghost after_alep = b.assembly();
    assert(ringsdb_cards@.take(0) =~= Seq::<RingsDbCard>::empty());

    let mut i: usize = 0;
    while i < ringsdb_cards.len()
        invariant
            i <= ringsdb_cards.len(),
            b.wf(),
            b.assembly() == ringsdb_fold(after_alep, ringsdb_cards@.take(i as int), ringsdb_packs@),
            forall|k: Seq<char>|
                #[trigger] release_date_for(ringsdb_packs@, k) == if dates@.contains_key(k) {
                    opt_chars(dates@[k])
                } else {
                    None
                },
        decreases ringsdb_cards.len() - i,
    {
        add_ringsdb_card(&mut b, &ringsdb_cards[i], &dates, &ringsdb_packs);
        proof {
            assert(ringsdb_cards@.take(i + 1).drop_last() =~= ringsdb_cards@.take(i as int));
        }
        i += 1;
    }
    assert(ringsdb_cards@.take(ringsdb_cards.len() as int) =~= ringsdb_cards@);
    proof {
        let kept_spec = without_promos(all_hob, promo_slug_set(all_hob));
        assert(kept@ == kept_spec);
        assert(start.packs =~= Seq::<PackRecord>::empty());
        assert(start.cards =~= Seq::<CardRecord>::empty());
        assert(start.versions =~= Seq::<VersionRecord>::empty());
        assert(start == Assembly {
            packs: Seq::<PackRecord>::empty(),
            cards: Seq::<CardRecord>::empty(),
            versions: Seq::<VersionRecord>::empty(),
            provided: Set::<(Seq<char>, int)>::empty(),
        });
    }
    GameCatalog {
        game_id: String::from_str("lotrlcg"),
        display_name: String::from_str("Lord of the Rings LCG"),
        packs: b.packs,
        cards: b.cards,
        card_versions: b.versions,
    }
}

} // verus!

verus! {

pub open spec fn unique_pack_ids(packs: Seq<PackRecord>) -> bool {
    forall|i: int, j: int|
        0 <= i < packs.len() && 0 <= j < packs.len() && i != j ==> #[trigger] packs[i].id
            != #[trigger] packs[j].id
}

pub open spec fn unique_card_ids(cards: Seq<CardRecord>) -> bool {
    forall|i: int, j: int|
        0 <= i < cards.len() && 0 <= j < cards.len() && i != j ==> #[trigger] cards[i].id
            != #[trigger] cards[j].id
}

pub open spec fn unique_printings(versions: Seq<VersionRecord>) -> bool {
    forall|i: int, j: int|
        0 <= i < versions.len() && 0 <= j < versions.len() && i != j ==> !(#[trigger] versions[i].card_id
            == #[trigger] versions[j].card_id && versions[i].pack_id == versions[j].pack_id)
}

pub open spec fn printings_resolve(st: Assembly) -> bool {
    forall|k: int|
        0 <= k < st.versions.len() ==> has_card(st.cards, #[trigger] st.versions[k].card_id)
            && has_pack(st.packs, st.versions[k].pack_id)
}

/// No two packs share an id, no two cards share an id, no card has two
/// printings in one pack, and every printing names a card and a pack of the catalog.
pub open spec fn catalog_consistent(st: Assembly) -> bool {
    &&& unique_pack_ids(st.packs)
    &&& unique_card_ids(st.cards)
    &&& unique_printings(st.versions)
    &&& printings_resolve(st)
}

proof fn lemma_add_pack(packs: Seq<PackRecord>, pack: PackRecord)
    requires
        unique_pack_ids(packs),
    ensures
        unique_pack_ids(add_pack(packs, pack)),
        has_pack(add_pack(packs, pack), pack.id),
        forall|id: Seq<char>| has_pack(packs, id) ==> has_pack(add_pack(packs, pack), id),
{
    let r = add_pack(packs, pack);
    if !has_pack(packs, pack.id) {
        assert(r[packs.len() as int].id == pack.id);
        assert forall|id: Seq<char>| has_pack(packs, id) implies has_pack(r, id) by {
            let k = choose|k: int| 0 <= k < packs.len() && #[trigger] packs[k].id == id;
            assert(r[k].id == id);
        }
        assert forall|i: int, j: int| 0 <= i < r.len() && 0 <= j < r.len() && i != j implies #[trigger] r[i].id != #[trigger] r[j].id by {
            if i == packs.len() {
                assert(packs[j].id != pack.id);
            } else if j == packs.len() {
                assert(packs[i].id != pack.id);
            }
        }
    }
}

proof fn lemma_add_card(cards: Seq<CardRecord>, card: CardRecord)
    requires
        unique_card_ids(cards),
    ensures
        unique_card_ids(add_card(cards, card)),
        has_card(add_card(cards, card), card.id),
        forall|id: Seq<char>| has_card(cards, id) ==> has_card(add_card(cards, card), id),
{
    let r = add_card(cards, card);
    if !has_card(cards, card.id) {
        assert(r[cards.len() as int].id == card.id);
        assert forall|id: Seq<char>| has_card(cards, id) implies has_card(r, id) by {
            let k = choose|k: int| 0 <= k < cards.len() && #[trigger] cards[k].id == id;
            assert(r[k].id == id);
        }
        assert forall|i: int, j: int| 0 <= i < r.len() && 0 <= j < r.len() && i != j implies #[trigger] r[i].id != #[trigger] r[j].id by {
            if i == cards.len() {
                assert(cards[j].id != card.id);
            } else if j == cards.len() {
                assert(cards[i].id != card.id);
            }
        }
    }
}

proof fn lemma_add_version(st: Assembly, v: VersionRecord)
    requires
        catalog_consistent(st),
        has_card(st.cards, v.card_id),
        has_pack(st.packs, v.pack_id),
    ensures
        catalog_consistent(add_version(st, v)),
        add_version(st, v).packs == st.packs,
        add_version(st, v).cards == st.cards,
{
    let r = add_version(st, v);
    if !has_version(st.versions, v.card_id, v.pack_id) {
        assert forall|i: int, j: int| 0 <= i < r.versions.len() && 0 <= j < r.versions.len() && i != j implies !(#[trigger] r.versions[i].card_id
            == #[trigger] r.versions[j].card_id && r.versions[i].pack_id == r.versions[j].pack_id) by {
            if i == st.versions.len() {
                assert(!(st.versions[j].card_id == v.card_id && st.versions[j].pack_id == v.pack_id));
            } else if j == st.versions.len() {
                assert(!(st.versions[i].card_id == v.card_id && st.versions[i].pack_id == v.pack_id));
            }
        }
        assert forall|k: int| 0 <= k < r.versions.len() implies has_card(r.cards, #[trigger] r.versions[k].card_id)
            && has_pack(r.packs, r.versions[k].pack_id) by {
            if k < st.versions.len() {
                assert(r.versions[k] == st.versions[k]);
            }
        }
    }
}

/// Renaming or redating packs keeps every pack's id.
proof fn lemma_pack_ids_kept(before: Seq<PackRecord>, after: Seq<PackRecord>)
    requires
        before.len() == after.len(),
        forall|k: int| 0 <= k < before.len() ==> #[trigger] after[k].id == before[k].id,
        unique_pack_ids(before),
    ensures
        unique_pack_ids(after),
        forall|id: Seq<char>| has_pack(before, id) == has_pack(after, id),
{
    assert forall|id: Seq<char>| has_pack(before, id) == has_pack(after, id) by {
        if has_pack(before, id) {
            let k = choose|k: int| 0 <= k < before.len() && #[trigger] before[k].id == id;
            assert(after[k].id == id);
        }
        if has_pack(after, id) {
            let k = choose|k: int| 0 <= k < after.len() && #[trigger] after[k].id == id;
            assert(before[k].id == id);
        }
    }
    assert forall|i: int, j: int| 0 <= i < after.len() && 0 <= j < after.len() && i != j implies #[trigger] after[i].id != #[trigger] after[j].id by {
        assert(before[i].id != before[j].id);
    }
}

proof fn lemma_consistent_with_packs(st: Assembly, packs: Seq<PackRecord>)
    requires
        catalog_consistent(st),
        unique_pack_ids(packs),
        forall|id: Seq<char>| has_pack(st.packs, id) ==> has_pack(packs, id),
    ensures
        catalog_consistent(with_packs(st, packs)),
{
    let r = with_packs(st, packs);
    assert forall|k: int| 0 <= k < r.versions.len() implies has_card(r.cards, #[trigger] r.versions[k].card_id)
        && has_pack(r.packs, r.versions[k].pack_id) by {
        assert(has_card(st.cards, st.versions[k].card_id));
        assert(has_pack(st.packs, st.versions[k].pack_id));
    }
}

proof fn lemma_consistent_with_card(st: Assembly, card: CardRecord)
    requires
        catalog_consistent(st),
    ensures
        catalog_consistent(with_cards(st, add_card(st.cards, card))),
        has_card(add_card(st.cards, card), card.id),
{
    lemma_add_card(st.cards, card);
    let r = with_cards(st, add_card(st.cards, card));
    assert forall|k: int| 0 <= k < r.versions.len() implies has_card(r.cards, #[trigger] r.versions[k].card_id)
        && has_pack(r.packs, r.versions[k].pack_id) by {
        assert(has_card(st.cards, st.versions[k].card_id));
    }
}

proof fn lemma_hob_card_step(st: Assembly, c: HobCard)
    requires
        catalog_consistent(st),
        has_pack(st.packs, normalized_title(c.card_set@)),
    ensures
        catalog_consistent(hob_card_step(st, c)),
        hob_card_step(st, c).packs == st.packs,
{
    let card = CardRecord {
        id: normalized_title(c.slug@),
        title: c.title@,
        title_normalized: normalized_title(c.title@),
        side: Some(hob_side(c.card_type@)),
        back_group: None,
    };
    lemma_consistent_with_card(st, card);
    let st1 = with_cards(st, add_card(st.cards, card));
    assert(st1 == Assembly { cards: add_card(st.cards, card), ..st });
    lemma_add_version(
        st1,
        VersionRecord {
            card_id: card.id,
            pack_id: normalized_title(c.card_set@),
            quantity: match c.quantity {
                Some(q) => q,
                None => 3,
            },
            position: Some(c.number),
            api_id: None,
        },
    );
}

proof fn lemma_hob_cards_fold(st: Assembly, cards: Seq<HobCard>)
    requires
        catalog_consistent(st),
        forall|k: int| 0 <= k < cards.len() ==> has_pack(st.packs, normalized_title(#[trigger] cards[k].card_set@)),
    ensures
        catalog_consistent(hob_cards_fold(st, cards)),
        hob_cards_fold(st, cards).packs == st.packs,
    decreases cards.len(),
{
    if cards.len() > 0 {
        lemma_hob_cards_fold(st, cards.drop_last());
        assert(has_pack(st.packs, normalized_title(cards[cards.len() - 1].card_set@)));
        lemma_hob_card_step(hob_cards_fold(st, cards.drop_last()), cards.last());
    }
}

proof fn lemma_hob_packs(cards: Seq<HobCard>, dates: Seq<RingsDbPack>)
    ensures
        unique_pack_ids(hob_packs(cards, dates)),
        forall|k: int| 0 <= k < cards.len() ==> has_pack(hob_packs(cards, dates), normalized_title(#[trigger] cards[k].card_set@)),
    decreases cards.len(),
{
    if cards.len() > 0 {
        let prev = cards.drop_last();
        lemma_hob_packs(prev, dates);
        let c = cards.last();
        let id = normalized_title(c.card_set@);
        lemma_add_pack(hob_packs(prev, dates), PackRecord { id: id, name: c.card_set@, date_release: release_date_for(dates, id) });
        assert forall|k: int| 0 <= k < cards.len() implies has_pack(hob_packs(cards, dates), normalized_title(#[trigger] cards[k].card_set@)) by {
            if k < cards.len() - 1 {
                assert(prev[k] == cards[k]);
            }
        }
    }
}

proof fn lemma_alep_step(st: Assembly, rc: AlepCard, dates: Seq<RingsDbPack>)
    requires
        catalog_consistent(st),
    ensures
        catalog_consistent(alep_step(st, rc, dates)),
{
    let official = match rc.is_official {
        Some(b) => b,
        None => true,
    };
    if !official {
        let clean = clean_pack_name(rc.pack_name@);
        let display = "ALeP - "@ + clean;
        let pack_id = normalized_title(clean);
        let card_id = normalized_title(rc.name@ + "-"@ + pack_id);
        let packs = if !has_pack(st.packs, pack_id) {
            st.packs.push(PackRecord { id: pack_id, name: display, date_release: release_date_for(dates, pack_id) })
        } else {
            renamed_to_alep(st.packs, pack_id, display)
        };
        if !has_pack(st.packs, pack_id) {
            lemma_add_pack(st.packs, PackRecord { id: pack_id, name: display, date_release: release_date_for(dates, pack_id) });
        } else {
            lemma_pack_ids_kept(st.packs, packs);
        }
        assert(has_pack(packs, pack_id));
        lemma_consistent_with_packs(st, packs);
        let st1 = with_packs(st, packs);
        let card = CardRecord {
            id: card_id,
            title: rc.name@,
            title_normalized: normalized_title(rc.name@),
            side: Some(side_of_type_code(opt_chars(rc.type_code))),
            back_group: None,
        };
        lemma_consistent_with_card(st1, card);
        let st2 = with_cards(st1, add_card(st1.cards, card));
        assert(st2 == Assembly { packs: packs, cards: add_card(st.cards, card), ..st });
        lemma_add_version(
            st2,
            VersionRecord {
                card_id: card_id,
                pack_id: pack_id,
                quantity: match rc.quantity {
                    Some(q) => q as i64,
                    None => 3,
                },
                position: opt_u32_as_i64(rc.position),
                api_id: None,
            },
        );
    }
}

proof fn lemma_ringsdb_step(st: Assembly, rc: RingsDbCard, dates: Seq<RingsDbPack>)
    requires
        catalog_consistent(st),
    ensures
        catalog_consistent(ringsdb_step(st, rc, dates)),
{
    let is_alep = ringsdb_is_alep(rc.pack_name@);
    let display = ringsdb_display_name(rc.pack_name@);
    let pack_id = normalized_title(ringsdb_clean_name(rc.pack_name@));
    let card_id = normalized_title(rc.name@ + "-"@ + pack_id);
    let packs = if !has_pack(st.packs, pack_id) {
        st.packs.push(PackRecord { id: pack_id, name: display, date_release: release_date_for(dates, pack_id) })
    } else {
        updated_from_ringsdb(st.packs, pack_id, is_alep, display, release_date_for(dates, pack_id))
    };
    if !has_pack(st.packs, pack_id) {
        lemma_add_pack(st.packs, PackRecord { id: pack_id, name: display, date_release: release_date_for(dates, pack_id) });
    } else {
        lemma_pack_ids_kept(st.packs, packs);
    }
    assert(has_pack(packs, pack_id));
    lemma_consistent_with_packs(st, packs);
    let st1 = with_packs(st, packs);
    assert(st1 == Assembly { packs: packs, ..st });
    if !(rc.position matches Some(pos) && st.provided.contains((pack_id, pos as int))) {
        let card = CardRecord {
            id: card_id,
            title: rc.name@,
            title_normalized: normalized_title(rc.name@),
            side: Some(side_of_type_code(opt_chars(rc.type_code))),
            back_group: None,
        };
        lemma_consistent_with_card(st1, card);
        let st2 = with_cards(st1, add_card(st1.cards, card));
        assert(st2 == Assembly { cards: add_card(st1.cards, card), ..st1 });
        lemma_add_version(
            st2,
            VersionRecord {
                card_id: card_id,
                pack_id: pack_id,
                quantity: match rc.quantity {
                    Some(q) => q as i64,
                    None => 3,
                },
                position: opt_u32_as_i64(rc.position),
                api_id: None,
            },
        );
    }
}

proof fn lemma_alep_fold(st: Assembly, cards: Seq<AlepCard>, dates: Seq<RingsDbPack>)
    requires
        catalog_consistent(st),
    ensures
        catalog_consistent(alep_fold(st, cards, dates)),
    decreases cards.len(),
{
    if cards.len() > 0 {
        lemma_alep_fold(st, cards.drop_last(), dates);
        lemma_alep_step(alep_fold(st, cards.drop_last(), dates), cards.last(), dates);
    }
}

proof fn lemma_ringsdb_fold(st: Assembly, cards: Seq<RingsDbCard>, dates: Seq<RingsDbPack>)
    requires
        catalog_consistent(st),
    ensures
        catalog_consistent(ringsdb_fold(st, cards, dates)),
    decreases cards.len(),
{
    if cards.len() > 0 {
        lemma_ringsdb_fold(st, cards.drop_last(), dates);
        lemma_ringsdb_step(ringsdb_fold(st, cards.drop_last(), dates), cards.last(), dates);
    }
}

/// Whatever the four sources hold, the assembled catalog has no two packs and
/// no two cards of one id, no card printed twice in one pack, and every
/// printing names a card and a pack of the catalog.
pub proof fn lotr_catalog_is_consistent(
    hob: Seq<HobCard>,
    dates: Seq<RingsDbPack>,
    alep: Seq<AlepCard>,
    ringsdb: Seq<RingsDbCard>,
)
    ensures
        catalog_consistent(lotr_assembly(hob, dates, alep, ringsdb)),
{
    let kept = without_promos(hob, promo_slug_set(hob));
    let start = Assembly {
        packs: hob_packs(kept, dates),
        cards: Seq::empty(),
        versions: Seq::empty(),
        provided: Set::empty(),
    };
    lemma_hob_packs(kept, dates);
    lemma_hob_cards_fold(start, kept);
    let after_hob = hob_cards_fold(start, kept);
    lemma_alep_fold(after_hob, alep, dates);
    lemma_ringsdb_fold(alep_fold(after_hob, alep, dates), ringsdb, dates);
}

/// `after` keeps every card of `before` where it was, and may add more.
pub open spec fn cards_extend(after: Seq<CardRecord>, before: Seq<CardRecord>) -> bool {
    &&& before.len() <= after.len()
    &&& forall|k: int| 0 <= k < before.len() ==> #[trigger] after[k] == before[k]
}

proof fn lemma_add_card_extends(cards: Seq<CardRecord>, card: CardRecord)
    ensures
        cards_extend(add_card(cards, card), cards),
{
}

proof fn lemma_alep_step_extends(st: Assembly, rc: AlepCard, dates: Seq<RingsDbPack>)
    ensures
        cards_extend(alep_step(st, rc, dates).cards, st.cards),
{
}

proof fn lemma_ringsdb_step_extends(st: Assembly, rc: RingsDbCard, dates: Seq<RingsDbPack>)
    ensures
        cards_extend(ringsdb_step(st, rc, dates).cards, st.cards),
{
}

proof fn lemma_alep_fold_extends(st: Assembly, cards: Seq<AlepCard>, dates: Seq<RingsDbPack>)
    ensures
        cards_extend(alep_fold(st, cards, dates).cards, st.cards),
    decreases cards.len(),
{
    if cards.len() > 0 {
        let mid = alep_fold(st, cards.drop_last(), dates);
        lemma_alep_fold_extends(st, cards.drop_last(), dates);
        lemma_alep_step_extends(mid, cards.last(), dates);
    }
}

proof fn lemma_ringsdb_fold_extends(st: Assembly, cards: Seq<RingsDbCard>, dates: Seq<RingsDbPack>)
    ensures
        cards_extend(ringsdb_fold(st, cards, dates).cards, st.cards),
    decreases cards.len(),
{
    if cards.len() > 0 {
        let mid = ringsdb_fold(st, cards.drop_last(), dates);
        lemma_ringsdb_fold_extends(st, cards.drop_last(), dates);
        lemma_ringsdb_step_extends(mid, cards.last(), dates);
    }
}

/// No card of `cards` before position `i` has the id card `i` has.
pub open spec fn first_of_its_id(cards: Seq<HobCard>, i: int) -> bool {
    forall|j: int| 0 <= j < i ==> normalized_title(#[trigger] cards[j].slug@) != normalized_title(cards[i].slug@)
}

proof fn lemma_hob_fold_cards(st: Assembly, cards: Seq<HobCard>, n: int)
    requires
        st.cards.len() == 0,
        0 <= n <= cards.len(),
    ensures
        forall|k: int|
            0 <= k < hob_cards_fold(st, cards.take(n)).cards.len() ==> exists|j: int|
                0 <= j < n && (#[trigger] hob_cards_fold(st, cards.take(n)).cards[k]).id == normalized_title(
                    cards[j].slug@,
                ),
        forall|i: int|
            0 <= i < n && first_of_its_id(cards, i) ==> exists|k: int|
                0 <= k < hob_cards_fold(st, cards.take(n)).cards.len() && (#[trigger] hob_cards_fold(
                    st,
                    cards.take(n),
                ).cards[k]).id == normalized_title(cards[i].slug@) && hob_cards_fold(st, cards.take(n)).cards[k].side
                    == Some(hob_side(cards[i].card_type@)),
    decreases n,
{
    if n == 0 {
        assert(cards.take(0) =~= Seq::<HobCard>::empty());
    } else {
        lemma_hob_fold_cards(st, cards, n - 1);
        let prev = hob_cards_fold(st, cards.take(n - 1));
        assert(cards.take(n).drop_last() =~= cards.take(n - 1));
        assert(cards.take(n).last() == cards[n - 1]);
        let next = hob_cards_fold(st, cards.take(n));
        assert(next == hob_card_step(prev, cards[n - 1]));
        let c = cards[n - 1];
        let rec = CardRecord {
            id: normalized_title(c.slug@),
            title: c.title@,
            title_normalized: normalized_title(c.title@),
            side: Some(hob_side(c.card_type@)),
            back_group: None,
        };
        assert(next.cards == add_card(prev.cards, rec));
        lemma_add_card_extends(prev.cards, rec);
        assert forall|k: int| 0 <= k < next.cards.len() implies exists|j: int|
            0 <= j < n && (#[trigger] next.cards[k]).id == normalized_title(cards[j].slug@) by {
            if k < prev.cards.len() {
                assert(next.cards[k] == prev.cards[k]);
                let j = choose|j: int| 0 <= j < n - 1 && (#[trigger] prev.cards[k]).id == normalized_title(cards[j].slug@);
            } else {
                assert(next.cards[k] == rec);
            }
        }
        assert forall|i: int| 0 <= i < n && first_of_its_id(cards, i) implies exists|k: int|
            0 <= k < next.cards.len() && (#[trigger] next.cards[k]).id == normalized_title(cards[i].slug@)
                && next.cards[k].side == Some(hob_side(cards[i].card_type@)) by {
            if i < n - 1 {
                let k = choose|k: int|
                    0 <= k < prev.cards.len() && (#[trigger] prev.cards[k]).id == normalized_title(cards[i].slug@)
                        && prev.cards[k].side == Some(hob_side(cards[i].card_type@));
                assert(next.cards[k] == prev.cards[k]);
            } else {
                if has_card(prev.cards, rec.id) {
                    let k = choose|k: int| 0 <= k < prev.cards.len() && #[trigger] prev.cards[k].id == rec.id;
                    let j = choose|j: int| 0 <= j < n - 1 && (#[trigger] prev.cards[k]).id == normalized_title(cards[j].slug@);
                    assert(normalized_title(cards[j].slug@) != normalized_title(cards[i].slug@));
                }
                assert(next.cards[prev.cards.len() as int] == rec);
            }
        }
    }
}

/// A Hall of Beorn card that is kept (no promo) and is the first kept card of
/// its id gives the assembled catalog a card of that id on the side of the
/// table its card type belongs to: allies, attachments, contracts, events,
/// heroes, player side quests and treasures on the player side; quests,
/// campaign cards and setup cards on the quest side; every other type on the
/// encounter side.
pub proof fn hall_of_beorn_cards_sit_on_their_side(
    hob: Seq<HobCard>,
    dates: Seq<RingsDbPack>,
    alep: Seq<AlepCard>,
    ringsdb: Seq<RingsDbCard>,
    i: int,
)
    requires
        0 <= i < without_promos(hob, promo_slug_set(hob)).len(),
        first_of_its_id(without_promos(hob, promo_slug_set(hob)), i),
    ensures
        ({
            let kept = without_promos(hob, promo_slug_set(hob));
            let t = kept[i].card_type@;
            let player = t == "Ally"@ || t == "Attachment"@ || t == "Contract"@ || t == "Event"@ || t == "Hero"@
                || t == "Player_Side_Quest"@ || t == "Treasure"@;
            let quest = t == "Quest"@ || t == "Campaign"@ || t == "GenCon_Setup"@ || t == "Nightmare_Setup"@;
            let cards = lotr_assembly(hob, dates, alep, ringsdb).cards;
            exists|k: int|
                0 <= k < cards.len() && #[trigger] cards[k].id == normalized_title(kept[i].slug@) && cards[k].side
                    == Some(
                    if player {
                        "player"@
                    } else if quest {
                        "quest"@
                    } else {
                        "encounter"@
                    },
                )
        }),
{
    let kept = without_promos(hob, promo_slug_set(hob));
    let start = Assembly {
        packs: hob_packs(kept, dates),
        cards: Seq::empty(),
        versions: Seq::empty(),
        provided: Set::empty(),
    };
    lemma_hob_fold_cards(start, kept, kept.len() as int);
    assert(kept.take(kept.len() as int) =~= kept);
    let after_hob = hob_cards_fold(start, kept);
    let after_alep = alep_fold(after_hob, alep, dates);
    lemma_alep_fold_extends(after_hob, alep, dates);
    lemma_ringsdb_fold_extends(after_alep, ringsdb, dates);
    let cards = lotr_assembly(hob, dates, alep, ringsdb).cards;
    assert(cards == ringsdb_fold(after_alep, ringsdb, dates).cards);
    let k = choose|k: int|
        0 <= k < after_hob.cards.len() && (#[trigger] after_hob.cards[k]).id == normalized_title(kept[i].slug@)
            && after_hob.cards[k].side == Some(hob_side(kept[i].card_type@));
    assert(after_alep.cards[k] == after_hob.cards[k]);
    assert(cards[k] == after_alep.cards[k]);
}

} // verus!
