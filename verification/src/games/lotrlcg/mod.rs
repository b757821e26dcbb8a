//! The Lord of the Rings: The Card Game.

pub mod adapter;
pub mod assembly;
pub mod models;

use vstd::prelude::*;
use crate::text::str_eq;

verus! {

/// Type codes, as RingsDB spells them, of cards printed with the player back.
pub open spec fn is_player_type_code(t: Seq<char>) -> bool {
    ||| t == "hero"@
    ||| t == "ally"@
    ||| t == "attachment"@
    ||| t == "event"@
    ||| t == "player-side-quest"@
    ||| t == "contract"@
    ||| t == "treasure"@
}

/// Type codes, as RingsDB spells them, of quest-deck cards.
pub open spec fn is_quest_type_code(t: Seq<char>) -> bool {
    ||| t == "quest"@
    ||| t == "campaign"@
    ||| t == "nightmare-setup"@
    ||| t == "setup"@
}

/// The side a RingsDB type code belongs to; anything unknown or absent is encounter.
pub open spec fn side_of_type_code(t: Option<Seq<char>>) -> Seq<char> {
    match t {
        Some(t) => if is_player_type_code(t) {
            "player"@
        } else if is_quest_type_code(t) {
            "quest"@
        } else {
            "encounter"@
        },
        None => "encounter"@,
    }
}

pub fn side_from_type_code(type_code: Option<&str>) -> (side: &'static str)
    ensures
        side@ == side_of_type_code(
            match type_code {
                Some(t) => Some(t@),
                None => None,
            },
        ),
{
    match type_code {
        Some(t) => {
            if str_eq(t, "hero") || str_eq(t, "ally") || str_eq(t, "attachment") || str_eq(
                t,
                "event",
            ) || str_eq(t, "player-side-quest") || str_eq(t, "contract") || str_eq(t, "treasure") {
                "player"
            } else if str_eq(t, "quest") || str_eq(t, "campaign") || str_eq(t, "nightmare-setup")
                || str_eq(t, "setup") {
                "quest"
            } else {
                "encounter"
            }
        },
        None => "encounter",
    }
}

} // verus!
