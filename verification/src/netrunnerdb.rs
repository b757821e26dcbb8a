//! NetrunnerDB deck references and the card requests a deck turns into.

use vstd::prelude::*;
use crate::models::CardRequest;
use crate::text::{
    before_char, chars_of, find_in, find_from, lemma_find_from, second_piece, second_piece_of,
    slice_chars, string_of, trim_end_char,
};

verus! {

/// The deck id and API path a NetrunnerDB URL names: a published decklist
/// (`.../decklist/{id}/...`, the id running up to the next `/`) or a private
/// deck (`.../deck/view/{id}`, trailing slashes dropped).
pub open spec fn nrdb_reference(url: Seq<char>) -> Option<(Seq<char>, Seq<char>)> {
    match second_piece(url, "/decklist/"@) {
        Some(piece) => Some((before_char(piece, '/'), "decklist"@)),
        None => match second_piece(url, "/deck/view/"@) {
            Some(piece) => Some((trim_end_char(piece, '/'), "deck"@)),
            None => None,
        },
    }
}

fn before_slash(s: &Vec<char>) -> (res: Vec<char>)
    ensures
        res@ == before_char(s@, '/'),
{
    let slash: Vec<char> = vec!['/'];
    assert(slash@ =~= seq!['/']);
    match find_in(s, &slash, 0) {
        Some(j) => {
            proof {
                lemma_find_from(s@, slash@, 0, j as int);
            }
            let r = slice_chars(s, 0, j);
            assert(r@ =~= s@.take(j as int));
            r
        },
        None => slice_chars(s, 0, s.len()),
    }
}

fn trim_trailing_slashes(s: &Vec<char>) -> (res: Vec<char>)
    ensures
        res@ == trim_end_char(s@, '/'),
{
    let mut end = s.len();
    assert(s@.take(end as int) =~= s@);
    while end > 0 && s[end - 1] == '/'
        invariant
            end <= s.len(),
            trim_end_char(s@, '/') == trim_end_char(s@.take(end as int), '/'),
        decreases end,
    {
        assert(s@.take(end as int).drop_last() =~= s@.take(end - 1));
        end -= 1;
    }
    let r = slice_chars(s, 0, end);
    assert(r@ =~= s@.take(end as int));
    r
}

/// Splits a NetrunnerDB URL into its deck id and API path (`decklist` or `deck`).
pub fn parse_nrdb_url(url: &str) -> (res: Result<(String, String), String>)
    ensures
        match res {
            Ok((id, path)) => nrdb_reference(url@) == Some((id@, path@)),
            Err(msg) => nrdb_reference(url@) is None && msg@
                == "URL must be a NetrunnerDB decklist or deck URL"@,
        },
{
    let chars = chars_of(url);
    let decklist = chars_of("/decklist/");
    match second_piece_of(&chars, &decklist) {
        Some(piece) => {
            let id = before_slash(&piece);
            return Ok((string_of(&id), String::from_str("decklist")));
        },
        None => {},
    }
    let deck = chars_of("/deck/view/");
    match second_piece_of(&chars, &deck) {
        Some(piece) => {
            let id = trim_trailing_slashes(&piece);
            Ok((string_of(&id), String::from_str("deck")))
        },
        None => Err(String::from_str("URL must be a NetrunnerDB decklist or deck URL")),
    }
}

/// A deck's card, how many copies it holds, and the catalog title of its code
/// if the catalog has one.
pub struct DeckCardLookup {
    pub code: String,
    pub quantity: u32,
    pub title: Option<String>,
}

/// One request per copy of each card the catalog knows, in deck order.
pub open spec fn deck_requests(cards: Seq<DeckCardLookup>) -> Seq<(Seq<char>, Seq<char>)>
    decreases cards.len(),
{
    if cards.len() == 0 {
        Seq::empty()
    } else {
        let c = cards.last();
        deck_requests(cards.drop_last()) + match c.title {
            Some(t) => Seq::new(c.quantity as nat, |i: int| (t@, c.code@)),
            None => Seq::empty(),
        }
    }
}

/// The codes of the cards the catalog does not know, in deck order.
pub open spec fn unknown_codes(cards: Seq<DeckCardLookup>) -> Seq<Seq<char>>
    decreases cards.len(),
{
    if cards.len() == 0 {
        Seq::empty()
    } else {
        let c = cards.last();
        unknown_codes(cards.drop_last()) + match c.title {
            Some(_) => Seq::empty(),
            None => seq![c.code@],
        }
    }
}

/// A request for a card by title and code, any printing.
pub open spec fn is_plain_request(r: CardRequest, title: Seq<char>, code: Seq<char>) -> bool {
    &&& r.title@ == title
    &&& r.id@ == code
    &&& r.printing is None
    &&& r.collection is None
    &&& r.position is None
}

/// Turns a deck's cards into card requests: as many requests for a card as the
/// deck holds copies, for the cards the catalog knows; the codes of the others
/// come back beside them.
pub fn resolve_deck_requests(cards: &Vec<DeckCardLookup>) -> (res: (Vec<CardRequest>, Vec<String>))
    ensures
        res.0.len() == deck_requests(cards@).len(),
        forall|k: int|
            0 <= k < res.0.len() ==> is_plain_request(
                #[trigger] res.0@[k],
                deck_requests(cards@)[k].0,
                deck_requests(cards@)[k].1,
            ),
        res.1@.map_values(|s: String| s@) == unknown_codes(cards@),
{
    let mut requests: Vec<CardRequest> = Vec::new();
    let mut missing: Vec<String> = Vec::new();
    let mut i: usize = 0;
    while i < cards.len()
        invariant
            i <= cards.len(),
            requests.len() == deck_requests(cards@.take(i as int)).len(),
            forall|k: int|
                0 <= k < requests.len() ==> is_plain_request(
                    #[trigger] requests@[k],
                    deck_requests(cards@.take(i as int))[k].0,
                    deck_requests(cards@.take(i as int))[k].1,
                ),
            missing@.map_values(|s: String| s@) == unknown_codes(cards@.take(i as int)),
        decreases cards.len() - i,
    {
        let c = &cards[i];
        let ghost prev = cards@.take(i as int);
        let ghost next = cards@.take(i + 1);
        assert(next.drop_last() =~= prev);
        assert(next.last() == cards@[i as int]);
        match &c.title {
            Some(title) => {
                let ghost before = requests@;
                let mut n: u32 = 0;
                while n < c.quantity
                    invariant
                        n <= c.quantity,
                        requests.len() == before.len() + n,
                        forall|k: int| 0 <= k < before.len() ==> #[trigger] requests@[k] == before[k],
                        forall|k: int|
                            before.len() <= k < requests.len() ==> is_plain_request(
                                #[trigger] requests@[k],
                                title@,
                                c.code@,
                            ),
                    decreases c.quantity - n,
                {
                    requests.push(
                        CardRequest {
                            title: title.clone(),
                            id: c.code.clone(),
                            printing: None,
                            collection: None,
                            position: None,
                        },
                    );
                    n += 1;
                }
                assert(unknown_codes(next) =~= unknown_codes(prev));
            },
            None => {
                let ghost before = missing@;
                missing.push(c.code.clone());
                assert(missing@.map_values(|s: String| s@) =~= before.map_values(|s: String| s@).push(c.code@));
                assert(deck_requests(next) =~= deck_requests(prev));
            },
        }
        i += 1;
    }
    assert(cards@.take(cards.len() as int) =~= cards@);
    (requests, missing)
}

} // verus!
