//! Per-game adapters that turn a game's public card data into a catalog.

pub mod ahlcg;
pub mod lotrlcg;

use vstd::prelude::*;

verus! {

/// Basic metadata every game adapter provides.
pub trait GameAdapterInfo {
    /// A short, unique game id.
    fn game_id(&self) -> &'static str;

    /// The game's display name.
    fn game_name(&self) -> &'static str;

    /// The subdomains the web app serves the game under.
    fn subdomains(&self) -> Vec<&'static str>;
}

} // verus!
