//! The configuration that the command line reads from its arguments and
//! environment, and the rules that turn those raw values into settings.
use crate::text::{lemma_split_nonempty, same_text, split, split_on, texts, to_text};
use vstd::prelude::*;

verus! {

/// How the command line opens a bookmark in a browser.
#[derive(Debug)]
pub struct CliConfig {
    pub browser_bin_path: Option<String>,
    pub browser_args: Option<Vec<String>>,
}

/// Where the data lives and how bookmarks are opened.
#[derive(Debug)]
pub struct Config {
    pub cli: CliConfig,
    pub database_name: String,
    pub assets_dir: String,
}

/// The texts of an optional list of strings.
pub open spec fn opt_texts(o: Option<Vec<String>>) -> Option<Seq<Seq<char>>> {
    match o {
        Some(v) => Some(texts(v@)),
        None => None,
    }
}

/// The argument that follows the first occurrence of `name`, if `name`
/// occurs and is not the last argument.
pub open spec fn arg_after(args: Seq<Seq<char>>, name: Seq<char>) -> Option<Seq<char>>
    decreases args.len(),
{
    if args.len() == 0 {
        None
    } else if args[0] == name {
        if args.len() >= 2 {
            Some(args[1])
        } else {
            None
        }
    } else {
        arg_after(args.drop_first(), name)
    }
}

/// The value given after `arg_name` among the program's arguments
/// (for example `--db <database_name>`).
pub fn parse_positional_env_arg(args: &Vec<String>, arg_name: &str) -> (r: Option<String>)
    ensures
        match r {
            Some(v) => arg_after(texts(args@), arg_name@) == Some(v@),
            None => arg_after(texts(args@), arg_name@) is None,
        },
{
    let ghost all = texts(args@);
    let n = args.len();
    let mut i: usize = 0;
    assert(all.subrange(0, n as int) =~= all);
    while i < n
        invariant
            n == args@.len(),
            all == texts(args@),
            i <= n,
            arg_after(all, arg_name@) == arg_after(all.subrange(i as int, n as int), arg_name@),
        decreases n - i,
    {
        let ghost rest = all.subrange(i as int, n as int);
        assert(rest[0] == args@[i as int]@);
        if same_text(args[i].as_str(), arg_name) {
            if i + 1 < n {
                assert(rest[1] == args@[i + 1]@);
                return Some(args[i + 1].clone());
            }
            return None;
        }
        assert(rest.drop_first() =~= all.subrange(i + 1, n as int));
        i = i + 1;
    }
    None
}

/// The database file named by `--db`: the part of the value before its
/// first `.`, with `.db` after it; `database.db` when there is none.
pub open spec fn database_name_for(arg: Option<Seq<char>>) -> Seq<char> {
    match arg {
        Some(v) => split_on(v, '.')[0] + ".db"@,
        None => "database.db"@,
    }
}

/// The database file name, from the value given after `--db`, if any.
pub fn get_rl_database_name(arg: Option<String>) -> (r: String)
    ensures
        r@ == database_name_for(match arg {
            Some(v) => Some(v@),
            None => None,
        }),
{
    match arg {
        Some(database_name) => {
            let parts = split(database_name.as_str(), '.');
            proof {
                lemma_split_nonempty(database_name@, '.');
            }
            let mut name = parts[0].clone();
            name.append(".db");
            name
        },
        None => to_text("database.db"),
    }
}

/// The browser arguments, from the comma-separated value of
/// `RL_CLI_BROWSER_ARGS`, if it is set.
pub fn get_rl_cli_browser_args(value: Option<String>) -> (r: Option<Vec<String>>)
    ensures
        opt_texts(r) == match value {
            Some(v) => Some(split_on(v@, ',')),
            None => None,
        },
{
    match value {
        Some(v) => Some(split(v.as_str(), ',')),
        None => None,
    }
}

/// What an environment variable that names a path says.
#[derive(Debug)]
pub enum EnvPath {
    /// The variable names a path that exists.
    Valid(String),
    /// The variable names no existing path; the message says so.
    Invalid(String),
    /// The variable is not set.
    Unset,
}

/// The warning for a variable whose value is not a valid path.
pub open spec fn invalid_path_message(name: Seq<char>, value: Seq<char>) -> Seq<char> {
    name + " '"@ + value + "' must be a valid path"@
}

/// Reads a path-valued environment variable `name`: its value, if set, is
/// used only where that path exists.
pub fn check_env_path(name: &str, value: Option<String>, path_exists: bool) -> (r: EnvPath)
    ensures
        match r {
            EnvPath::Valid(v) => value matches Some(x) && path_exists && v@ == x@,
            EnvPath::Invalid(m) => value matches Some(x) && !path_exists && m@
                == invalid_path_message(name@, x@),
            EnvPath::Unset => value is None,
        },
{
    match value {
        Some(v) => {
            if path_exists {
                EnvPath::Valid(v)
            } else {
                let mut m = to_text(name);
                m.append(" '");
                m.append(v.as_str());
                m.append("' must be a valid path");
                EnvPath::Invalid(m)
            }
        },
        None => EnvPath::Unset,
    }
}

} // verus!
