//! Settings. A missing or malformed file is replaced with defaults
//! rather than reported: nobody should be shown a dialog about their
//! preferences file on the way into a writing app.

use vstd::prelude::*;

verus! {

#[derive(Debug, PartialEq, Eq)]
pub struct Config {
    pub effects: bool,
    pub dense: bool,
    pub fullscreen: bool,
    pub window: (u32, u32),
    pub recent: Option<String>,
    /// Where bare filenames land. Defaults to ~/Documents.
    pub base_dir: Option<String>,
}

impl Default for Config {
    /// CRT effects on, 80x25, windowed at 4:3, nothing recent, the
    /// default writing folder.
    fn default() -> (c: Self)
        ensures
            c.effects,
            !c.dense,
            !c.fullscreen,
            c.window == (1080u32, 810u32),
            c.recent is None,
            c.base_dir is None,
    {
        Config {
            effects: true,
            dense: false,
            fullscreen: false,
            window: (1080, 810),
            recent: None,
            base_dir: None,
        }
    }
}

} // verus!
