//! The settings that the launcher runs with.

use vstd::prelude::*;
use vstd::string::StringExecFns;
use crate::text::labels;

verus! {

/// The launcher's settings. They are read once and stay as they are while the
/// launcher runs.
#[derive(Debug)]
pub struct Config {
    pub theme: String,
    pub width: u32,
    pub height: u32,
    pub font_size: u16,
    /// How many candidates the window shows, and the most that a search
    /// returns.
    pub max_entries: usize,
    pub terminal: String,
    /// The directories whose executables make up the catalog, in the order in
    /// which they are read.
    pub search_paths: Vec<String>,
    pub hide_on_lose_focus: bool,
    /// Kept with the settings; matching does not consult it.
    pub case_sensitive: bool,
}

/// The settings as plain values.
pub struct ConfigView {
    pub theme: Seq<char>,
    pub width: u32,
    pub height: u32,
    pub font_size: u16,
    pub max_entries: usize,
    pub terminal: Seq<char>,
    pub search_paths: Seq<Seq<char>>,
    pub hide_on_lose_focus: bool,
    pub case_sensitive: bool,
}

impl View for Config {
    type V = ConfigView;

    open spec fn view(&self) -> ConfigView {
        ConfigView {
            theme: self.theme@,
            width: self.width,
            height: self.height,
            font_size: self.font_size,
            max_entries: self.max_entries,
            terminal: self.terminal@,
            search_paths: labels(self.search_paths@),
            hide_on_lose_focus: self.hide_on_lose_focus,
            case_sensitive: self.case_sensitive,
        }
    }
}

impl Config {
    /// The window has room for at least one candidate.
    pub open spec fn valid(&self) -> bool {
        self.max_entries >= 1
    }

    /// Whether the settings can be used: the window must have room for at
    /// least one candidate.
    pub fn is_valid(&self) -> (r: bool)
        ensures
            r == self.valid(),
    {
        self.max_entries >= 1
    }
}

impl Default for Config {
    /// The settings used where none are stored or they cannot be read.
    fn default() -> (c: Config)
        ensures
            c.valid(),
            c.theme@ == "default"@,
            c.width == 900,
            c.height == 600,
            c.font_size == 14,
            c.max_entries == 15,
            c.terminal@ == "xterm"@,
            c.search_paths@.len() == 2,
            c.search_paths@[0]@ == "/usr/bin"@,
            c.search_paths@[1]@ == "/usr/local/bin"@,
            c.hide_on_lose_focus,
            !c.case_sensitive,
    {
        let mut search_paths: Vec<String> = Vec::new();
        search_paths.push(String::from_str("/usr/bin"));
        search_paths.push(String::from_str("/usr/local/bin"));
        Config {
            theme: String::from_str("default"),
            width: 900,
            height: 600,
            font_size: 14,
            max_entries: 15,
            terminal: String::from_str("xterm"),
            search_paths,
            hide_on_lose_focus: true,
            case_sensitive: false,
        }
    }
}

} // verus!
