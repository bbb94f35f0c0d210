//! What the command handlers share: the configuration and the store.
use crate::config::Config;
use crate::database::Database;
use vstd::prelude::*;

verus! {

/// The configuration and the store that the handlers use.
pub struct Context<'a> {
    pub config: &'a Config,
    pub database: &'a Database<'a>,
}

impl<'a> Context<'a> {
    /// The context of a store and a configuration.
    pub fn new(database: &'a Database<'a>, config: &'a Config) -> (r: Context<'a>)
        ensures
            r.config == config,
            r.database == database,
    {
        Context { database, config }
    }
}

} // verus!
