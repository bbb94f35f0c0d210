//! The configuration kept in a local `config.local` file: one `key=value`
//! setting per line.
use crate::config::opt_texts;
use crate::text::{lowercase, same_text, split, split_on, texts, to_lowercase, trim, trim_str};
use vstd::prelude::*;

verus! {

/// How the command line opens a bookmark in a browser.
#[derive(Debug)]
pub struct CliConfig {
    pub browser_bin_path: Option<String>,
    pub browser_args: Option<Vec<String>>,
}

/// Where the data lives and how bookmarks are opened.
#[derive(Debug)]
pub struct Config {
    pub cli: CliConfig,
    pub database_location: String,
    pub assets_dir: String,
}

/// A configuration, as mathematical values.
pub struct ConfigModel {
    pub browser_bin_path: Option<Seq<char>>,
    pub browser_args: Option<Seq<Seq<char>>>,
    pub database_location: Seq<char>,
    pub assets_dir: Seq<char>,
}

impl View for Config {
    type V = ConfigModel;

    open spec fn view(&self) -> ConfigModel {
        ConfigModel {
            browser_bin_path: match self.cli.browser_bin_path {
                Some(p) => Some(p@),
                None => None,
            },
            browser_args: opt_texts(self.cli.browser_args),
            database_location: self.database_location@,
            assets_dir: self.assets_dir@,
        }
    }
}

/// Whether each line of a non-blank configuration text holds a `=`; the
/// reading of such a text fails on a line without one.
pub open spec fn config_text_readable(text: Seq<char>) -> bool {
    let lines = split_on(text, '\n');
    trim(text).len() == 0 || forall|i: int|
        0 <= i < lines.len() ==> #[trigger] split_on(lines[i], '=').len() >= 2
}

/// One `key=value` line applied to a configuration. The key is compared
/// in lower case; the value is what lies between the first and the second
/// `=`; a key that is not known changes nothing.
pub open spec fn apply_line(c: ConfigModel, line: Seq<char>) -> ConfigModel {
    let parts = split_on(line, '=');
    let key = lowercase(parts[0]);
    let value = parts[1];
    if key == "cli.browser_args"@ {
        ConfigModel { browser_args: Some(split_on(value, ',')), ..c }
    } else if key == "cli.browser_bin_path"@ {
        ConfigModel { browser_bin_path: Some(value), ..c }
    } else if key == "assets_dir"@ {
        ConfigModel { assets_dir: value, ..c }
    } else if key == "database_location"@ {
        ConfigModel { database_location: value, ..c }
    } else {
        c
    }
}

/// The lines applied one after another, first to last.
pub open spec fn apply_lines(c: ConfigModel, lines: Seq<Seq<char>>) -> ConfigModel
    decreases lines.len(),
{
    if lines.len() == 0 {
        c
    } else {
        apply_line(apply_lines(c, lines.drop_last()), lines.last())
    }
}

/// A configuration text applied to a configuration; a blank text changes
/// nothing.
pub open spec fn apply_config_text(c: ConfigModel, text: Seq<char>) -> ConfigModel {
    if trim(text).len() > 0 {
        apply_lines(c, split_on(text, '\n'))
    } else {
        c
    }
}

impl Config {
    /// Whether a `config.local` text can be read: blank, or `=` on each line.
    pub fn local_config_readable(text: &str) -> (r: bool)
        ensures
            r == config_text_readable(text@),
    {
        if trim_str(text).unicode_len() == 0 {
            return true;
        }
        let lines = split(text, '\n');
        let ghost ls = texts(lines@);
        let mut i: usize = 0;
        while i < lines.len()
            invariant
                ls == texts(lines@),
                ls == split_on(text@, '\n'),
                i <= lines@.len(),
                trim(text@).len() > 0,
                forall|k: int| 0 <= k < i ==> #[trigger] split_on(ls[k], '=').len() >= 2,
            decreases lines@.len() - i,
        {
            let parts = split(lines[i].as_str(), '=');
            if parts.len() < 2 {
                assert(split_on(ls[i as int], '=').len() < 2);
                assert(trim(text@).len() > 0);
                return false;
            }
            i = i + 1;
        }
        true
    }

    /// Applies the settings of a `config.local` text to this configuration.
    pub fn apply_local_config(&mut self, text: &str)
        requires
            config_text_readable(text@),
        ensures
            final(self)@ == apply_config_text(old(self)@, text@),
    {
        if trim_str(text).unicode_len() == 0 {
            return;
        }
        let lines = split(text, '\n');
        let ghost ls = texts(lines@);
        let ghost start = self@;
        let mut i: usize = 0;
        assert(ls.subrange(0, 0) =~= Seq::<Seq<char>>::empty());
        while i < lines.len()
            invariant
                ls == texts(lines@),
                ls == split_on(text@, '\n'),
                config_text_readable(text@),
                trim(text@).len() > 0,
                i <= lines@.len(),
                self@ == apply_lines(start, ls.subrange(0, i as int)),
            decreases lines@.len() - i,
        {
            let ghost before = self@;
            let parts = split(lines[i].as_str(), '=');
            assert(split_on(ls[i as int], '=').len() >= 2);
            let key = to_lowercase(parts[0].as_str());
            let value = &parts[1];
            if same_text(key.as_str(), "cli.browser_args") {
                self.cli.browser_args = Some(split(value.as_str(), ','));
            } else if same_text(key.as_str(), "cli.browser_bin_path") {
                self.cli.browser_bin_path = Some(value.clone());
            } else if same_text(key.as_str(), "assets_dir") {
                self.assets_dir = value.clone();
            } else if same_text(key.as_str(), "database_location") {
                self.database_location = value.clone();
            }
            assert(ls.subrange(0, i + 1).drop_last() =~= ls.subrange(0, i as int));
            assert(self@ == apply_line(before, ls[i as int]));
            i = i + 1;
        }
        assert(ls.subrange(0, lines@.len() as int) =~= ls);
    }
}

} // verus!
