//! The Lord of the Rings LCG catalog, assembled from Hall of Beorn, RingsDB and ALeP.

use vstd::prelude::*;
use vstd::hash_set::StringHashSet;
use vstd::string::StringSliceAdditionalSpecFns;
use vstd::utf8::{encode_utf8, encode_utf8_decode_utf8};
use crate::games::lotrlcg::models::HobCard;
use crate::games::GameAdapterInfo;
use crate::text::str_eq;

verus! {

pub struct LotrLcgAdapter;

impl LotrLcgAdapter {
    pub fn new() -> (adapter: Self)
        ensures
            adapter == LotrLcgAdapter,
    {
        LotrLcgAdapter
    }
}

impl Default for LotrLcgAdapter {
    fn default() -> (adapter: Self)
        ensures
            adapter == LotrLcgAdapter,
    {
        LotrLcgAdapter::new()
    }
}

impl GameAdapterInfo for LotrLcgAdapter {
    fn game_id(&self) -> (id: &'static str)
        ensures
            id@ == "lotrlcg"@,
    {
        "lotrlcg"
    }

    fn game_name(&self) -> (name: &'static str)
        ensures
            name@ == "Lord of the Rings LCG"@,
    {
        "Lord of the Rings LCG"
    }

    fn subdomains(&self) -> (domains: Vec<&'static str>)
        ensures
            domains.len() == 1,
            domains[0]@ == "lotrlcg"@,
    {
        vec!["lotrlcg"]
    }
}

/// The UTF-8 bytes of an optional RingsDB card id's pack part: the id less its
/// last three bytes, when the id is longer than three bytes.
pub open spec fn pack_prefix_bytes(card: HobCard) -> Option<Seq<u8>> {
    match card.rings_db_card_id {
        Some(id) => {
            let b = encode_utf8(id@);
            if b.len() > 3 {
                Some(b.take(b.len() - 3))
            } else {
                None
            }
        },
        None => None,
    }
}

/// The card's RingsDB id fits in memory, and cutting its last three bytes off
/// leaves whole characters.
pub open spec fn pack_prefix_is_cut_cleanly(card: HobCard) -> bool {
    match card.rings_db_card_id {
        Some(id) => {
            let b = encode_utf8(id@);
            &&& b.len() <= usize::MAX
            &&& b.len() > 3 ==> vstd::utf8::is_char_boundary(b, b.len() - 3)
        },
        None => true,
    }
}

/// The RingsDB pack a card really belongs to: its id less the 3-digit number.
pub fn ringsdb_pack_prefix(card: &HobCard) -> (res: Option<&str>)
    requires
        pack_prefix_is_cut_cleanly(*card),
    ensures
        match res {
            Some(p) => pack_prefix_bytes(*card) == Some(encode_utf8(p@)),
            None => pack_prefix_bytes(*card) is None,
        },
{
    match &card.rings_db_card_id {
        Some(full) => {
            let id: &str = full.as_str();
            let n = id.len();
            assert(id.spec_bytes() == encode_utf8(full@));
            if n > 3 {
                let (head, _tail) = id.split_at(n - 3);
                assert(encode_utf8(head@) =~= encode_utf8(full@).take(n - 3));
                Some(head)
            } else {
                None
            }
        },
        None => None,
    }
}

} // verus!

verus! {

/// Cards of `set` that have a pack prefix.
pub open spec fn set_size(cards: Seq<HobCard>, set: Seq<char>) -> nat
    decreases cards.len(),
{
    if cards.len() == 0 {
        0
    } else {
        set_size(cards.drop_last(), set) + if cards.last().card_set@ == set && pack_prefix_bytes(
            cards.last(),
        ) is Some {
            1nat
        } else {
            0nat
        }
    }
}

/// Cards of `set` whose pack prefix is `prefix`.
pub open spec fn prefix_count(cards: Seq<HobCard>, set: Seq<char>, prefix: Seq<u8>) -> nat
    decreases cards.len(),
{
    if cards.len() == 0 {
        0
    } else {
        prefix_count(cards.drop_last(), set, prefix) + if cards.last().card_set@ == set
            && pack_prefix_bytes(cards.last()) == Some(prefix) {
            1nat
        } else {
            0nat
        }
    }
}

/// `prefix` accounts for at least 60% of the prefixed cards of `set`.
pub open spec fn dominates(cards: Seq<HobCard>, set: Seq<char>, prefix: Seq<u8>) -> bool {
    5 * prefix_count(cards, set, prefix) >= 3 * set_size(cards, set)
}

/// Card `i` has a pack prefix, and another prefix dominates its set.
pub open spec fn is_promo_at(cards: Seq<HobCard>, i: int) -> bool {
    match pack_prefix_bytes(cards[i]) {
        Some(p) => exists|j: int|
            0 <= j < cards.len() && cards[j].card_set@ == cards[i].card_set@ && match
                #[trigger] pack_prefix_bytes(cards[j]) {
                Some(d) => d != p && dominates(cards, cards[i].card_set@, d),
                None => false,
            },
        None => false,
    }
}

/// Slugs of the cards filed in a set whose dominant pack prefix is not their own.
pub open spec fn promo_slug_set(cards: Seq<HobCard>) -> Set<Seq<char>> {
    Set::new(|slug: Seq<char>| exists|i: int| 0 <= i < cards.len() && is_promo_at(cards, i) && #[trigger] cards[i].slug@ == slug)
}

pub open spec fn all_prefixes_cut_cleanly(cards: Seq<HobCard>) -> bool {
    forall|i: int| 0 <= i < cards.len() ==> pack_prefix_is_cut_cleanly(#[trigger] cards[i])
}

/// Tests the condition `promo_slugs` and the catalog assembly need: every
/// card's RingsDB id can lose its last three bytes without cutting a
/// character in two.
pub fn prefixes_cut_cleanly(cards: &[HobCard]) -> (ok: bool)
    ensures
        ok == all_prefixes_cut_cleanly(cards@),
{
    let mut i: usize = 0;
    while i < cards.len()
        invariant
            i <= cards.len(),
            forall|k: int| 0 <= k < i ==> pack_prefix_is_cut_cleanly(#[trigger] cards@[k]),
        decreases cards.len() - i,
    {
        match &cards[i].rings_db_card_id {
            Some(full) => {
                let id: &str = full.as_str();
                let bytes = id.as_bytes();
                let n = bytes.len();
                assert(bytes@ == encode_utf8(full@));
                if n > 3 && !id.is_char_boundary(n - 3) {
                    assert(!pack_prefix_is_cut_cleanly(cards@[i as int]));
                    return false;
                }
            },
            None => {},
        }
        i += 1;
    }
    true
}

proof fn lemma_encode_injective(a: Seq<char>, b: Seq<char>)
    ensures
        (encode_utf8(a) == encode_utf8(b)) == (a == b),
{
    encode_utf8_decode_utf8(a);
    encode_utf8_decode_utf8(b);
}

fn prefixes_of(cards: &[HobCard]) -> (res: Vec<Option<&str>>)
    requires
        all_prefixes_cut_cleanly(cards@),
    ensures
        res.len() == cards.len(),
        forall|i: int|
            0 <= i < cards.len() ==> match #[trigger] res[i] {
                Some(p) => pack_prefix_bytes(cards[i]) == Some(encode_utf8(p@)),
                None => pack_prefix_bytes(cards[i]) is None,
            },
{
    let mut res: Vec<Option<&str>> = Vec::new();
    let mut i: usize = 0;
    while i < cards.len()
        invariant
            i <= cards.len(),
            res.len() == i,
            all_prefixes_cut_cleanly(cards@),
            forall|k: int|
                0 <= k < i ==> match #[trigger] res[k] {
                    Some(p) => pack_prefix_bytes(cards[k]) == Some(encode_utf8(p@)),
                    None => pack_prefix_bytes(cards[k]) is None,
                },
        decreases cards.len() - i,
    {
        assert(pack_prefix_is_cut_cleanly(cards@[i as int]));
        res.push(ringsdb_pack_prefix(&cards[i]));
        i += 1;
    }
    res
}

/// Whether the prefix of card `i` dominates its set.
fn dominant_at(cards: &[HobCard], prefixes: &Vec<Option<&str>>, i: usize) -> (res: bool)
    requires
        i < cards.len(),
        prefixes.len() == cards.len(),
        forall|k: int|
            0 <= k < cards.len() ==> match #[trigger] prefixes[k] {
                Some(p) => pack_prefix_bytes(cards[k]) == Some(encode_utf8(p@)),
                None => pack_prefix_bytes(cards[k]) is None,
            },
    ensures
        res == match pack_prefix_bytes(cards[i as int]) {
            Some(p) => dominates(cards@, cards[i as int].card_set@, p),
            None => false,
        },
{
    match prefixes[i] {
        None => false,
        Some(p) => {
            let set = cards[i].card_set.as_str();
            let ghost pb = encode_utf8(p@);
            let mut members: usize = 0;
            let mut hits: usize = 0;
            let mut j: usize = 0;
            while j < cards.len()
                invariant
                    j <= cards.len(),
                    i < cards.len(),
                    prefixes.len() == cards.len(),
                    set@ == cards[i as int].card_set@,
                    pb == encode_utf8(p@),
                    forall|k: int|
                        0 <= k < cards.len() ==> match #[trigger] prefixes[k] {
                            Some(p) => pack_prefix_bytes(cards[k]) == Some(encode_utf8(p@)),
                            None => pack_prefix_bytes(cards[k]) is None,
                        },
                    members == set_size(cards@.take(j as int), set@),
                    hits == prefix_count(cards@.take(j as int), set@, pb),
                    hits <= members <= j,
                decreases cards.len() - j,
            {
                let ghost before = cards@.take(j as int);
                assert(cards@.take(j + 1).drop_last() =~= before);
                match prefixes[j] {
                    Some(q) => {
                        if str_eq(cards[j].card_set.as_str(), set) {
                            members += 1;
                            proof {
                                lemma_encode_injective(q@, p@);
                            }
                            if str_eq(q, p) {
                                hits += 1;
                            }
                        }
                    },
                    None => {},
                }
                j += 1;
            }
            assert(cards@.take(cards.len() as int) =~= cards@);
            (hits as u128) * 5 >= (members as u128) * 3
        },
    }
}

/// Slugs of promo cards Hall of Beorn files inside another product's card set.
///
/// Gen Con and preorder promo heroes were handed out alongside a scenario, and
/// the catalog lists them as part of that scenario even though the box does not
/// contain them. Their `RingsDbCardId` still points at the pack they were really
/// printed in, so within a set they are the cards whose pack prefix disagrees
/// with the prefix that at least 60% of the set's cards share. Sets with no
/// such prefix are left alone: the hero and starter products are collections
/// of reprints, where a mixed prefix is the honest answer.
pub fn promo_slugs(cards: &[HobCard]) -> (promos: StringHashSet)
    requires
        all_prefixes_cut_cleanly(cards@),
    ensures
        promos@ == promo_slug_set(cards@),
{
    let prefixes = prefixes_of(cards);
    let mut dominant: Vec<bool> = Vec::new();
    let mut i: usize = 0;
    while i < cards.len()
        invariant
            i <= cards.len(),
            dominant.len() == i,
            prefixes.len() == cards.len(),
            forall|k: int|
                0 <= k < cards.len() ==> match #[trigger] prefixes[k] {
                    Some(p) => pack_prefix_bytes(cards[k]) == Some(encode_utf8(p@)),
                    None => pack_prefix_bytes(cards[k]) is None,
                },
            forall|k: int|
                0 <= k < i ==> #[trigger] dominant[k] == match pack_prefix_bytes(cards[k]) {
                    Some(p) => dominates(cards@, cards[k].card_set@, p),
                    None => false,
                },
        decreases cards.len() - i,
    {
        let d = dominant_at(cards, &prefixes, i);
        dominant.push(d);
        i += 1;
    }
    let mut promos = StringHashSet::new();
    let mut i: usize = 0;
    while i < cards.len()
        invariant
            i <= cards.len(),
            dominant.len() == cards.len(),
            prefixes.len() == cards.len(),
            forall|k: int|
                0 <= k < cards.len() ==> match #[trigger] prefixes[k] {
                    Some(p) => pack_prefix_bytes(cards[k]) == Some(encode_utf8(p@)),
                    None => pack_prefix_bytes(cards[k]) is None,
                },
            forall|k: int|
                0 <= k < cards.len() ==> #[trigger] dominant[k] == match pack_prefix_bytes(cards[k]) {
                    Some(p) => dominates(cards@, cards[k].card_set@, p),
                    None => false,
                },
            promos@ == Set::new(|slug: Seq<char>| exists|k: int| 0 <= k < i && is_promo_at(cards@, k) && #[trigger] cards@[k].slug@ == slug),
        decreases cards.len() - i,
    {
        let ghost old_promos = promos@;
        match prefixes[i] {
            Some(p) => {
                let set = cards[i].card_set.as_str();
                let mut found = false;
                let mut j: usize = 0;
                while j < cards.len()
                    invariant
                        j <= cards.len(),
                        i < cards.len(),
                        dominant.len() == cards.len(),
                        prefixes.len() == cards.len(),
                        prefixes[i as int] == Some(p),
                        set@ == cards[i as int].card_set@,
                        forall|k: int|
                            0 <= k < cards.len() ==> match #[trigger] prefixes[k] {
                                Some(p) => pack_prefix_bytes(cards[k]) == Some(encode_utf8(p@)),
                                None => pack_prefix_bytes(cards[k]) is None,
                            },
                        forall|k: int|
                            0 <= k < cards.len() ==> #[trigger] dominant[k] == match pack_prefix_bytes(cards[k]) {
                                Some(p) => dominates(cards@, cards[k].card_set@, p),
                                None => false,
                            },
                        found == exists|k: int|
                            0 <= k < j && cards@[k].card_set@ == cards@[i as int].card_set@ && match
                                #[trigger] pack_prefix_bytes(cards@[k]) {
                                Some(d) => d != encode_utf8(p@) && dominates(cards@, cards@[i as int].card_set@, d),
                                None => false,
                            },
                    decreases cards.len() - j,
                {
                    match prefixes[j] {
                        Some(q) => {
                            proof {
                                lemma_encode_injective(q@, p@);
                            }
                            if dominant[j] && str_eq(cards[j].card_set.as_str(), set) && !str_eq(q, p) {
                                found = true;
                            }
                        },
                        None => {},
                    }
                    j += 1;
                }
                assert(found == is_promo_at(cards@, i as int));
                if found {
                    promos.insert(cards[i].slug.clone());
                }
            },
            None => {
                assert(!is_promo_at(cards@, i as int));
            },
        }
        assert(promos@ =~= Set::new(|slug: Seq<char>| exists|k: int| 0 <= k < i + 1 && is_promo_at(cards@, k) && #[trigger] cards@[k].slug@ == slug));
        i += 1;
    }
    assert(promos@ =~= promo_slug_set(cards@));
    promos
}

} // verus!

verus! {

proof fn lemma_counts_disjoint(cards: Seq<HobCard>, set: Seq<char>, p: Seq<u8>, d: Seq<u8>)
    requires
        p != d,
    ensures
        prefix_count(cards, set, p) + prefix_count(cards, set, d) <= set_size(cards, set),
    decreases cards.len(),
{
    if cards.len() > 0 {
        lemma_counts_disjoint(cards.drop_last(), set, p, d);
    }
}

proof fn lemma_member_counted(cards: Seq<HobCard>, i: int, p: Seq<u8>)
    requires
        0 <= i < cards.len(),
        pack_prefix_bytes(cards[i]) == Some(p),
    ensures
        prefix_count(cards, cards[i].card_set@, p) >= 1,
    decreases cards.len(),
{
    if i < cards.len() - 1 {
        lemma_member_counted(cards.drop_last(), i, p);
    }
}

/// At most one pack prefix reaches the 60% share of a set that holds any prefixed card.
pub proof fn dominant_prefix_is_unique(cards: Seq<HobCard>, set: Seq<char>, p: Seq<u8>, d: Seq<u8>)
    requires
        set_size(cards, set) > 0,
        dominates(cards, set, p),
        dominates(cards, set, d),
    ensures
        p == d,
{
    if p != d {
        lemma_counts_disjoint(cards, set, p, d);
    }
}

/// A card whose own pack prefix dominates its set is never taken for a promo.
pub proof fn dominant_prefix_cards_are_not_promos(cards: Seq<HobCard>, i: int)
    requires
        0 <= i < cards.len(),
        pack_prefix_bytes(cards[i]) matches Some(p) && dominates(cards, cards[i].card_set@, p),
    ensures
        !is_promo_at(cards, i),
{
    let p = pack_prefix_bytes(cards[i])->0;
    let set = cards[i].card_set@;
    lemma_member_counted(cards, i, p);
    lemma_counts_disjoint_size(cards, set, p);
    if is_promo_at(cards, i) {
        let j = choose|j: int|
            0 <= j < cards.len() && cards[j].card_set@ == set && match
                #[trigger] pack_prefix_bytes(cards[j]) {
                Some(d) => d != p && dominates(cards, set, d),
                None => false,
            };
        let d = pack_prefix_bytes(cards[j])->0;
        dominant_prefix_is_unique(cards, set, p, d);
    }
}

proof fn lemma_counts_disjoint_size(cards: Seq<HobCard>, set: Seq<char>, p: Seq<u8>)
    ensures
        prefix_count(cards, set, p) <= set_size(cards, set),
    decreases cards.len(),
{
    if cards.len() > 0 {
        lemma_counts_disjoint_size(cards.drop_last(), set, p);
    }
}

/// How many of `s` satisfy `f`.
pub open spec fn count_where(s: Seq<HobCard>, f: spec_fn(HobCard) -> bool) -> nat
    decreases s.len(),
{
    if s.len() == 0 {
        0
    } else {
        count_where(s.drop_last(), f) + if f(s.last()) {
            1nat
        } else {
            0nat
        }
    }
}

/// The cards `set_size` counts.
pub open spec fn prefixed_in(set: Seq<char>) -> spec_fn(HobCard) -> bool {
    |c: HobCard| c.card_set@ == set && pack_prefix_bytes(c) is Some
}

/// The cards `prefix_count` counts.
pub open spec fn with_prefix_in(set: Seq<char>, prefix: Seq<u8>) -> spec_fn(HobCard) -> bool {
    |c: HobCard| c.card_set@ == set && pack_prefix_bytes(c) == Some(prefix)
}

proof fn lemma_set_size_counts(s: Seq<HobCard>, set: Seq<char>)
    ensures
        set_size(s, set) == count_where(s, prefixed_in(set)),
    decreases s.len(),
{
    if s.len() > 0 {
        lemma_set_size_counts(s.drop_last(), set);
    }
}

proof fn lemma_prefix_count_counts(s: Seq<HobCard>, set: Seq<char>, prefix: Seq<u8>)
    ensures
        prefix_count(s, set, prefix) == count_where(s, with_prefix_in(set, prefix)),
    decreases s.len(),
{
    if s.len() > 0 {
        lemma_prefix_count_counts(s.drop_last(), set, prefix);
    }
}

proof fn lemma_count_remove(s: Seq<HobCard>, i: int, f: spec_fn(HobCard) -> bool)
    requires
        0 <= i < s.len(),
    ensures
        count_where(s, f) == count_where(s.remove(i), f) + if f(s[i]) {
            1nat
        } else {
            0nat
        },
    decreases s.len(),
{
    if i == s.len() - 1 {
        assert(s.remove(i) =~= s.drop_last());
    } else {
        lemma_count_remove(s.drop_last(), i, f);
        assert(s.remove(i).drop_last() =~= s.drop_last().remove(i));
        assert(s.remove(i).last() == s.last());
    }
}

proof fn lemma_count_reordered(s: Seq<HobCard>, t: Seq<HobCard>, f: spec_fn(HobCard) -> bool)
    requires
        s.to_multiset() == t.to_multiset(),
    ensures
        count_where(s, f) == count_where(t, f),
    decreases s.len(),
{
    broadcast use vstd::seq_lib::group_to_multiset_ensures;
    if s.len() == 0 {
        assert(t.len() == t.to_multiset().len());
        assert(s.len() == s.to_multiset().len());
    } else {
        let x = s.last();
        let init = s.drop_last();
        assert(s =~= init.push(x));
        assert(s.contains(x)) by {
            assert(s[s.len() - 1] == x);
        }
        assert(s.to_multiset().count(x) > 0);
        assert(t.to_multiset().count(x) > 0);
        assert(t.contains(x));
        let k = choose|k: int| 0 <= k < t.len() && t[k] == x;
        let rest = t.remove(k);
        assert(init.to_multiset() =~= rest.to_multiset()) by {
            assert(s.to_multiset() =~= init.to_multiset().insert(x));
            assert(rest.to_multiset() =~= t.to_multiset().remove(x));
        }
        lemma_count_reordered(init, rest, f);
        lemma_count_remove(t, k, f);
    }
}

proof fn lemma_dominance_reordered(s: Seq<HobCard>, t: Seq<HobCard>, set: Seq<char>, prefix: Seq<u8>)
    requires
        s.to_multiset() == t.to_multiset(),
    ensures
        set_size(s, set) == set_size(t, set),
        prefix_count(s, set, prefix) == prefix_count(t, set, prefix),
        dominates(s, set, prefix) == dominates(t, set, prefix),
{
    lemma_set_size_counts(s, set);
    lemma_set_size_counts(t, set);
    lemma_prefix_count_counts(s, set, prefix);
    lemma_prefix_count_counts(t, set, prefix);
    lemma_count_reordered(s, t, prefixed_in(set));
    lemma_count_reordered(s, t, with_prefix_in(set, prefix));
}

proof fn lemma_promos_carry_over(s: Seq<HobCard>, t: Seq<HobCard>)
    requires
        s.to_multiset() == t.to_multiset(),
    ensures
        promo_slug_set(s).subset_of(promo_slug_set(t)),
{
    broadcast use vstd::seq_lib::group_to_multiset_ensures;
    assert forall|slug: Seq<char>| promo_slug_set(s).contains(slug) implies promo_slug_set(t).contains(slug) by {
        let i = choose|i: int| 0 <= i < s.len() && is_promo_at(s, i) && #[trigger] s[i].slug@ == slug;
        let x = s[i];
        let set = x.card_set@;
        assert(s.contains(x));
        assert(s.to_multiset().count(x) > 0);
        assert(t.to_multiset().count(x) > 0);
        assert(t.contains(x));
        let k = choose|k: int| 0 <= k < t.len() && t[k] == x;
        let p = pack_prefix_bytes(x)->0;
        let j = choose|j: int|
            0 <= j < s.len() && s[j].card_set@ == set && match #[trigger] pack_prefix_bytes(s[j]) {
                Some(d) => d != p && dominates(s, set, d),
                None => false,
            };
        let y = s[j];
        let d = pack_prefix_bytes(y)->0;
        assert(s.contains(y));
        assert(s.to_multiset().count(y) > 0);
        assert(t.to_multiset().count(y) > 0);
        assert(t.contains(y));
        let m = choose|m: int| 0 <= m < t.len() && t[m] == y;
        lemma_dominance_reordered(s, t, set, d);
        assert(t[k].card_set@ == set);
        assert(t[m].card_set@ == t[k].card_set@ && match pack_prefix_bytes(t[m]) {
            Some(d2) => d2 != p && dominates(t, t[k].card_set@, d2),
            None => false,
        });
        assert(is_promo_at(t, k));
        assert(t[k].slug@ == slug);
    }
}

/// Which cards are promos does not depend on the order the cards come in:
/// the same cards in any order give the same promo slugs.
pub proof fn promo_slugs_ignore_card_order(cards: Seq<HobCard>, reordered: Seq<HobCard>)
    requires
        cards.to_multiset() == reordered.to_multiset(),
    ensures
        promo_slug_set(reordered) == promo_slug_set(cards),
{
    lemma_promos_carry_over(cards, reordered);
    lemma_promos_carry_over(reordered, cards);
    assert(promo_slug_set(reordered) =~= promo_slug_set(cards));
}

} // verus!
