//! The records that describe printings, card requests and decklists.

use std::collections::HashMap;
use vstd::prelude::*;
use crate::text::{i64_to_decimal, int_decimal, lemma_int_decimal_injective, lemma_nat_decimal_reads_back, nat_decimal};

verus! {

/// The metadata file at the root of a collection archive.
#[derive(Debug, Clone)]
pub struct Manifest {
    pub game: String,
    pub version: String,
    pub language: String,
    pub generated_date: String,
}

#[derive(Clone, Copy, PartialEq, Eq, Structural, Debug)]
pub enum BleedPreference {
    Bleed,
    NoBleed,
}

/// An image file to print, and whether it already carries a bleed border.
#[derive(Clone, Debug, PartialEq)]
pub struct SourceImage {
    pub key: String,
    pub has_bleed: bool,
}

/// One face (or auxiliary part) of a printing, with the image files it has.
#[derive(Debug, Clone, PartialEq)]
pub struct PrintingPart {
    pub name: String,
    pub image_key: Option<String>,
    pub bleed_image_key: Option<String>,
}

#[derive(Debug, Clone, PartialEq)]
pub struct Printing {
    pub card_id: String,
    pub card_title: String,
    pub is_official: bool,
    pub variant: Option<String>,
    pub front: PrintingPart,
    pub parts: Vec<PrintingPart>,
    pub collection: String,
    pub side: String,
    pub pack_id: Option<String>,
    pub date_release: Option<String>,
    pub position: Option<i64>,
}

#[derive(Debug, Clone, PartialEq)]
pub struct CardRequest {
    pub title: String,
    pub id: String,
    pub printing: Option<String>,
    pub collection: Option<String>,
    pub position: Option<i64>,
}

#[derive(Debug, Clone)]
pub struct DecklistEntry {
    pub card_id: String,
    pub pack_id: Option<String>,
    pub quantity: u32,
    pub position: Option<i64>,
}

#[derive(Debug, Clone)]
pub struct Decklist {
    pub cards: Vec<DecklistEntry>,
}

#[derive(Debug, Clone, PartialEq, Default)]
pub struct ResolvedCardRequests {
    pub requests: Vec<CardRequest>,
    pub not_found: Vec<String>,
}

#[derive(Debug, Clone, PartialEq, Default)]
pub struct ResolvedPrintings {
    pub printings: Vec<Printing>,
    pub available_variants: HashMap<String, Vec<Printing>>,
    pub not_found: Vec<String>,
}

/// The text of an optional string.
pub open spec fn opt_text(s: Option<String>) -> Option<Seq<char>> {
    match s {
        Some(s) => Some(s@),
        None => None,
    }
}

impl View for SourceImage {
    /// The image key and whether it carries a bleed.
    type V = (Seq<char>, bool);

    open spec fn view(&self) -> (Seq<char>, bool) {
        (self.key@, self.has_bleed)
    }
}

/// The image a part is printed from, given the preferred kind: the preferred
/// kind when the part has it, the other kind otherwise, and none when the part
/// has neither.
pub open spec fn chosen_image(
    image_key: Option<Seq<char>>,
    bleed_image_key: Option<Seq<char>>,
    preferred: BleedPreference,
) -> Option<(Seq<char>, bool)> {
    let bleed = match bleed_image_key {
        Some(k) => Some((k, true)),
        None => None,
    };
    let plain = match image_key {
        Some(k) => Some((k, false)),
        None => None,
    };
    match preferred {
        BleedPreference::Bleed => if bleed is Some { bleed } else { plain },
        BleedPreference::NoBleed => if plain is Some { plain } else { bleed },
    }
}

pub open spec fn opt_image_view(img: Option<SourceImage>) -> Option<(Seq<char>, bool)> {
    match img {
        Some(i) => Some(i@),
        None => None,
    }
}

fn image_from(key: &Option<String>, has_bleed: bool) -> (res: Option<SourceImage>)
    ensures
        opt_image_view(res) == match opt_text(*key) {
            Some(k) => Some((k, has_bleed)),
            None => None,
        },
{
    match key {
        Some(k) => Some(SourceImage { key: k.clone(), has_bleed }),
        None => None,
    }
}

impl PrintingPart {
    pub fn image(&self, preferred: BleedPreference) -> (res: Option<SourceImage>)
        ensures
            opt_image_view(res) == chosen_image(
                opt_text(self.image_key),
                opt_text(self.bleed_image_key),
                preferred,
            ),
    {
        match preferred {
            BleedPreference::Bleed => {
                let bleed = image_from(&self.bleed_image_key, true);
                if bleed.is_some() {
                    bleed
                } else {
                    image_from(&self.image_key, false)
                }
            },
            BleedPreference::NoBleed => {
                let plain = image_from(&self.image_key, false);
                if plain.is_some() {
                    plain
                } else {
                    image_from(&self.bleed_image_key, true)
                }
            },
        }
    }
}

/// The name a printing's variant is shown and grouped under: its pack, else
/// its variant name, else `official`.
pub open spec fn variant_display(pack_id: Option<Seq<char>>, variant: Option<Seq<char>>) -> Seq<
    char,
> {
    match pack_id {
        Some(p) => p,
        None => match variant {
            Some(v) => v,
            None => "official"@,
        },
    }
}

/// `{display}:{position}:{collection}`, the position left empty when there is none.
pub open spec fn variant_key_of(
    pack_id: Option<Seq<char>>,
    variant: Option<Seq<char>>,
    position: Option<i64>,
    collection: Seq<char>,
) -> Seq<char> {
    let pos = match position {
        Some(p) => int_decimal(p as int),
        None => Seq::<char>::empty(),
    };
    variant_display(pack_id, variant) + seq![':'] + pos + seq![':'] + collection
}

impl Printing {
    pub open spec fn spec_variant_key(&self) -> Seq<char> {
        variant_key_of(
            opt_text(self.pack_id),
            opt_text(self.variant),
            self.position,
            self.collection@,
        )
    }

    pub fn variant_key(&self) -> (key: String)
        ensures
            key@ == self.spec_variant_key(),
    {
        let mut key = match &self.pack_id {
            Some(p) => p.clone(),
            None => match &self.variant {
                Some(v) => v.clone(),
                None => String::from_str("official"),
            },
        };
        key.append(":");
        match self.position {
            Some(p) => {
                let digits = i64_to_decimal(p);
                key.append(digits.as_str());
            },
            None => {},
        }
        key.append(":");
        key.append(self.collection.as_str());
        proof {
            reveal_strlit(":");
            assert(key@ =~= self.spec_variant_key());
        }
        key
    }
}

} // verus!

verus! {

/// Two printings shown under the same pack or variant name in the same
/// collection but at different positions in the pack get different variant keys.
pub proof fn variant_key_separates_positions(
    pack_id: Option<Seq<char>>,
    variant: Option<Seq<char>>,
    collection: Seq<char>,
    first: Option<i64>,
    second: Option<i64>,
)
    requires
        first != second,
    ensures
        variant_key_of(pack_id, variant, first, collection) != variant_key_of(
            pack_id,
            variant,
            second,
            collection,
        ),
{
    let d = variant_display(pack_id, variant);
    let k1 = variant_key_of(pack_id, variant, first, collection);
    let k2 = variant_key_of(pack_id, variant, second, collection);
    let p1 = match first {
        Some(p) => int_decimal(p as int),
        None => Seq::<char>::empty(),
    };
    let p2 = match second {
        Some(p) => int_decimal(p as int),
        None => Seq::<char>::empty(),
    };
    assert(k1.len() == d.len() + 1 + p1.len() + 1 + collection.len());
    assert(k2.len() == d.len() + 1 + p2.len() + 1 + collection.len());
    if k1 == k2 {
        assert(p1.len() == p2.len());
        assert(p1 =~= k1.subrange(d.len() as int + 1, d.len() as int + 1 + p1.len() as int));
        assert(p2 =~= k2.subrange(d.len() as int + 1, d.len() as int + 1 + p2.len() as int));
        match (first, second) {
            (Some(a), Some(b)) => {
                lemma_int_decimal_injective(a as int, b as int);
            },
            (Some(a), None) => {
                lemma_nat_decimal_reads_back(if a < 0 { (-a) as nat } else { a as nat });
            },
            (None, Some(b)) => {
                lemma_nat_decimal_reads_back(if b < 0 { (-b) as nat } else { b as nat });
            },
            (None, None) => {},
        }
    }
}

} // verus!
