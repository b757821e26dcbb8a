//! The card catalog: normalized titles and the records a game adapter produces.

use vstd::prelude::*;
use crate::text::{
    ascii_lower, ascii_lower_char, chars_of, char_is_alphanumeric, i64_to_decimal, int_decimal,
    is_alphanumeric, is_ascii_alphanumeric, is_ascii_char, is_ascii_text, lowercase_of, string_of,
    to_lowercase,
};

verus! {

/// Every character that is not alphanumeric replaced by `_`.
pub open spec fn underscore_non_alphanumeric(s: Seq<char>) -> Seq<char> {
    Seq::new(s.len(), |i: int| if char_is_alphanumeric(s[i]) { s[i] } else { '_' })
}

/// A title as the card search indexes it: lowercased, then every character
/// that is not alphanumeric replaced by `_`.
pub open spec fn normalized_title(title: Seq<char>) -> Seq<char> {
    underscore_non_alphanumeric(lowercase_of(title))
}

/// On ASCII text: every character that is not an ASCII letter or digit
/// replaced by `_`.
pub open spec fn ascii_underscored(s: Seq<char>) -> Seq<char> {
    Seq::new(s.len(), |i: int| if is_ascii_alphanumeric(s[i]) { s[i] } else { '_' })
}

/// An ASCII title as the card search indexes it: ASCII-lowercased, then every
/// character that is not a letter or digit replaced by `_`.
pub open spec fn ascii_normalized(title: Seq<char>) -> Seq<char> {
    ascii_underscored(ascii_lower(title))
}

/// Every character of `s` that is not alphanumeric replaced by `_`.
pub fn underscore_non_alphanumerics(s: &str) -> (res: String)
    ensures
        res@ == underscore_non_alphanumeric(s@),
        is_ascii_text(s@) ==> res@ == ascii_underscored(s@),
{
    let chars = chars_of(s);
    let mut out: Vec<char> = Vec::new();
    let mut i: usize = 0;
    while i < chars.len()
        invariant
            i <= chars.len(),
            chars@ == s@,
            out@ == underscore_non_alphanumeric(chars@).take(i as int),
            forall|k: int|
                0 <= k < i ==> (is_ascii_char(chars@[k]) ==> (char_is_alphanumeric(#[trigger] chars@[k])
                    == is_ascii_alphanumeric(chars@[k]))),
        decreases chars.len() - i,
    {
        let c = chars[i];
        if is_alphanumeric(c) {
            out.push(c);
        } else {
            out.push('_');
        }
        i += 1;
    }
    assert(out@ =~= underscore_non_alphanumeric(chars@));
    proof {
        if is_ascii_text(s@) {
            assert forall|k: int| 0 <= k < s@.len() implies char_is_alphanumeric(#[trigger] s@[k])
                == is_ascii_alphanumeric(s@[k]) by {
                assert(chars@[k] == s@[k]);
                assert(is_ascii_char(s@[k]));
            }
            assert(underscore_non_alphanumeric(s@) =~= ascii_underscored(s@));
        }
    }
    string_of(&out)
}

proof fn lemma_ascii_lower_stays_ascii(s: Seq<char>)
    requires
        is_ascii_text(s),
    ensures
        is_ascii_text(ascii_lower(s)),
{
    assert forall|i: int| 0 <= i < ascii_lower(s).len() implies is_ascii_char(#[trigger] ascii_lower(s)[i]) by {
        assert(is_ascii_char(s[i]));
    }
}

pub fn normalize_title(title: &str) -> (res: String)
    ensures
        res@ == normalized_title(title@),
        is_ascii_text(title@) ==> res@ == ascii_normalized(title@),
{
    let lower = to_lowercase(title);
    proof {
        if is_ascii_text(title@) {
            lemma_ascii_lower_stays_ascii(title@);
        }
    }
    underscore_non_alphanumerics(lower.as_str())
}

/// Normalizing an ASCII title gives ASCII text that normalizing leaves as it
/// is: a normalized ASCII title normalizes to itself.
pub proof fn normalizing_ascii_titles_is_idempotent(title: Seq<char>)
    requires
        is_ascii_text(title),
    ensures
        is_ascii_text(ascii_normalized(title)),
        ascii_normalized(ascii_normalized(title)) == ascii_normalized(title),
{
    let n = ascii_normalized(title);
    assert forall|i: int| 0 <= i < n.len() implies is_ascii_char(#[trigger] n[i]) && ascii_lower_char(n[i])
        == n[i] && (is_ascii_alphanumeric(n[i]) || n[i] == '_') by {
        assert(is_ascii_char(title[i]));
    }
    assert(ascii_normalized(n) =~= n);
}

} // verus!

verus! {

/// A pack (set, expansion, product) in a game's catalog.
#[derive(Debug, Clone, PartialEq)]
pub struct Pack {
    pub id: String,
    pub name: String,
    pub date_release: Option<String>,
}

/// A card as the catalog knows it, independent of where it was printed.
#[derive(Debug, Clone, PartialEq)]
pub struct Card {
    pub id: String,
    pub title: String,
    pub title_normalized: String,
    pub side: Option<String>,
    pub back_group: Option<String>,
}

/// An official printing of a card in a pack.
#[derive(Debug, Clone, PartialEq)]
pub struct CardVersion {
    pub card_id: String,
    pub pack_id: String,
    pub quantity: i64,
    pub position: Option<i64>,
    pub api_id: Option<String>,
}

/// The catalog a game adapter hands over: its packs, cards and printings.
#[derive(Debug, Clone)]
pub struct GameCatalog {
    pub game_id: String,
    pub display_name: String,
    pub packs: Vec<Pack>,
    pub cards: Vec<Card>,
    pub card_versions: Vec<CardVersion>,
}

/// The text of an optional string.
pub open spec fn opt_chars(s: Option<String>) -> Option<Seq<char>> {
    match s {
        Some(s) => Some(s@),
        None => None,
    }
}

pub struct PackRecord {
    pub id: Seq<char>,
    pub name: Seq<char>,
    pub date_release: Option<Seq<char>>,
}

pub struct CardRecord {
    pub id: Seq<char>,
    pub title: Seq<char>,
    pub title_normalized: Seq<char>,
    pub side: Option<Seq<char>>,
    pub back_group: Option<Seq<char>>,
}

pub struct VersionRecord {
    pub card_id: Seq<char>,
    pub pack_id: Seq<char>,
    pub quantity: i64,
    pub position: Option<i64>,
    pub api_id: Option<Seq<char>>,
}

impl View for Pack {
    type V = PackRecord;

    open spec fn view(&self) -> PackRecord {
        PackRecord { id: self.id@, name: self.name@, date_release: opt_chars(self.date_release) }
    }
}

impl View for Card {
    type V = CardRecord;

    open spec fn view(&self) -> CardRecord {
        CardRecord {
            id: self.id@,
            title: self.title@,
            title_normalized: self.title_normalized@,
            side: opt_chars(self.side),
            back_group: opt_chars(self.back_group),
        }
    }
}

impl View for CardVersion {
    type V = VersionRecord;

    open spec fn view(&self) -> VersionRecord {
        VersionRecord {
            card_id: self.card_id@,
            pack_id: self.pack_id@,
            quantity: self.quantity,
            position: self.position,
            api_id: opt_chars(self.api_id),
        }
    }
}

pub open spec fn pack_records(packs: Seq<Pack>) -> Seq<PackRecord> {
    packs.map_values(|p: Pack| p@)
}

pub open spec fn card_records(cards: Seq<Card>) -> Seq<CardRecord> {
    cards.map_values(|c: Card| c@)
}

pub open spec fn version_records(versions: Seq<CardVersion>) -> Seq<VersionRecord> {
    versions.map_values(|v: CardVersion| v@)
}

} // verus!

verus! {

#[verifier::external_type_specification]
#[verifier::external_body]
pub struct ExPathBuf(std::path::PathBuf);

/// The NetrunnerDB card catalog, kept in an SQLite database file.
pub struct Catalog {
    app_db_path: std::path::PathBuf,
}

impl Catalog {
    /// The catalog kept in the database at `app_db_path`.
    pub fn at(app_db_path: std::path::PathBuf) -> (catalog: Catalog)
        ensures
            catalog.app_db_path() == app_db_path,
    {
        Catalog { app_db_path }
    }

    pub closed spec fn app_db_path(&self) -> std::path::PathBuf {
        self.app_db_path
    }

    /// Where the catalog's database lives.
    pub fn db_path(&self) -> (path: &std::path::PathBuf)
        ensures
            *path == self.app_db_path(),
    {
        &self.app_db_path
    }
}

/// The summary `catalog info` prints: the card count, and the catalog version
/// recorded by the last update, or a note that the bundled snapshot is in use.
pub open spec fn catalog_info_text(card_count: i64, last_updated: Option<Seq<char>>) -> Seq<char> {
    "Card Catalog Info:\n- Cards: "@ + int_decimal(card_count as int) + "\n- Last Updated: "@ + match last_updated {
        Some(v) => v,
        None => "Unknown (bundled snapshot)"@,
    }
}

pub fn catalog_info(card_count: i64, last_updated: Option<String>) -> (info: String)
    ensures
        info@ == catalog_info_text(card_count, opt_chars(last_updated)),
{
    let mut info = String::from_str("Card Catalog Info:\n- Cards: ");
    let count = i64_to_decimal(card_count);
    info.append(count.as_str());
    info.append("\n- Last Updated: ");
    match &last_updated {
        Some(v) => info.append(v.as_str()),
        None => info.append("Unknown (bundled snapshot)"),
    }
    info
}

} // verus!
