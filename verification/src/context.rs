//! What the prompt is drawn from.
use vstd::prelude::*;

use crate::dictionary::Dictionary;
use crate::style::Palette;
use crate::value::Table;

verus! {

/// The settings that stand outside any module.
pub struct StarshipRootConfig {
    /// The palettes that the user has defined.
    pub palettes: Dictionary<Palette>,
    /// The name of the palette in use.
    pub palette: Option<String>,
    /// The `[ondemand]` table.
    pub ondemand: Option<Table>,
}

/// What the prompt is drawn from.
pub struct Context {
    pub root_config: StarshipRootConfig,
}

impl Default for StarshipRootConfig {
    fn default() -> (r: StarshipRootConfig)
        ensures
            r.palettes@ == Map::<Seq<char>, Palette>::empty(),
            r.palette is None,
            r.ondemand is None,
    {
        StarshipRootConfig { palettes: Dictionary::new(), palette: None, ondemand: None }
    }
}

} // verus!
