use vstd::prelude::*;
use crate::ordered_map::keys_unique;

verus! {

/// The user's favourites: names and the text each one stands for. The configuration
/// file holds them as a table, so no name occurs twice.
#[derive(Debug, Clone)]
pub struct Favourites {
    pub items: Vec<(String, String)>,
}

impl Favourites {
    /// The names and texts, as text.
    pub open spec fn pairs(self) -> Seq<(Seq<char>, Seq<char>)> {
        self.items@.map_values(|p: (String, String)| (p.0@, p.1@))
    }

    /// Whether no name occurs twice, as in the configuration file's table.
    pub open spec fn names_unique(self) -> bool {
        keys_unique(self.pairs())
    }
}

impl Default for Favourites {
    fn default() -> (f: Favourites)
        ensures
            f.items@.len() == 0,
    {
        Favourites { items: Vec::new() }
    }
}

} // verus!
