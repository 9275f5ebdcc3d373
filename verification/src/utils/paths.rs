//! The folders the loader uses on the SD card.
use vstd::prelude::*;

verus! {

/// The mods folder.
pub fn mods() -> (r: String)
    ensures
        r@ == "sd:/ultimate/mods"@,
{
    "sd:/ultimate/mods".to_owned()
}

/// The configuration folder.
pub fn config() -> (r: String)
    ensures
        r@ == "sd:/ultimate/arcropolis/config"@,
{
    "sd:/ultimate/arcropolis/config".to_owned()
}

/// The log folder.
pub fn logs() -> (r: String)
    ensures
        r@ == "sd:/ultimate/arcropolis/logs"@,
{
    "sd:/ultimate/arcropolis/logs".to_owned()
}

/// The cache folder for a game version: one folder per version.
pub fn cache(game_version: &str) -> (r: String)
    ensures
        r@ == crate::path::join("sd:/ultimate/arcropolis/cache"@, game_version@),
{
    let root = crate::path::chars_of("sd:/ultimate/arcropolis/cache");
    let v = crate::path::chars_of(game_version);
    crate::path::string_of(&crate::path::join_paths(&root, &v))
}

} // verus!
