//! The card and pack records read from Hall of Beorn, RingsDB and ALeP.

use vstd::prelude::*;

verus! {

/// A card from the Hall of Beorn card exports.
#[derive(Debug, Clone)]
pub struct HobCard {
    pub title: String,
    pub slug: String,
    pub card_set: String,
    pub number: i64,
    pub quantity: Option<i64>,
    pub front: Option<String>,
    pub card_type: String,
    pub rings_db_card_id: Option<String>,
}

/// A pack from RingsDB's pack list.
#[derive(Debug, Clone)]
pub struct RingsDbPack {
    pub name: String,
    pub available: Option<String>,
}

/// A card from the ALeP catalog.
#[derive(Debug, Clone)]
pub struct AlepCard {
    pub name: String,
    pub pack_name: String,
    pub type_code: Option<String>,
    pub quantity: Option<u32>,
    pub position: Option<u32>,
    pub is_official: Option<bool>,
}

/// A card from RingsDB's card list.
#[derive(Debug, Clone)]
pub struct RingsDbCard {
    pub name: String,
    pub pack_name: String,
    pub type_code: Option<String>,
    pub quantity: Option<u32>,
    pub position: Option<u32>,
}

} // verus!
