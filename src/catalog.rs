//! Games of the catalog, and the settings for loading them.

use vstd::prelude::*;

verus! {

/// A game of the catalog.
#[derive(Clone, Debug)]
pub struct Game {
    pub title: String,
    pub cover_id: usize,
    pub cover_url: Option<String>,
}

/// Settings for loading the catalog.
#[derive(Clone, Debug)]
pub struct GameLoaderArgs {
    pub game_lookup_depth: i32,
    pub search_suggestions_depth: i32,
    pub data_file_path: String,
}

impl GameLoaderArgs {
    /// Look up 1000 games, suggest 5, keep the data in `game_data.json`.
    pub fn default() -> (r: GameLoaderArgs)
        ensures
            r.game_lookup_depth == 1000,
            r.search_suggestions_depth == 5,
            r.data_file_path@ == "game_data.json"@,
    {
        GameLoaderArgs {
            game_lookup_depth: 1000,
            search_suggestions_depth: 5,
            data_file_path: "game_data.json".to_owned(),
        }
    }
}

} // verus!
