//! What the game can be configured with, and what it assumes where nothing
//! is configured.

use vstd::prelude::*;

verus! {

/// Where and how much to log.
#[derive(Debug)]
pub struct Logging {
    /// The least severe level that is logged.
    pub level: String,
    /// The file that the log is written to.
    pub file: String,
}

impl Default for Logging {
    /// Level `info`, written to `walpurgis.log`.
    fn default() -> (logging: Self)
        ensures
            logging.level@ == "info"@,
            logging.file@ == "walpurgis.log"@,
    {
        Self { level: "info".to_owned(), file: "walpurgis.log".to_owned() }
    }
}

/// Where the game's assets are.
#[derive(Debug)]
pub struct Assets {
    /// The directory that holds all assets.
    pub root: String,
}

impl Default for Assets {
    /// The directory `data`.
    fn default() -> (assets: Self)
        ensures
            assets.root@ == "data"@,
    {
        Self { root: "data".to_owned() }
    }
}

/// All settings of the game.
#[derive(Debug)]
pub struct Settings {
    pub logging: Logging,
    pub assets: Assets,
}

impl Default for Settings {
    /// The defaults of every part.
    fn default() -> (settings: Self)
        ensures
            settings.logging.level@ == "info"@,
            settings.logging.file@ == "walpurgis.log"@,
            settings.assets.root@ == "data"@,
    {
        Self { logging: Logging::default(), assets: Assets::default() }
    }
}

} // verus!
