//! The store of the local configuration, and a small sum.
use crate::utils::Config;
use vstd::prelude::*;

verus! {

/// A store at the location that a local configuration names.
pub struct Database<'a> {
    config: &'a Config,
}

impl<'a> Database<'a> {
    /// The store of the configuration.
    pub fn new(config: &'a Config) -> (r: Self)
        ensures
            r.config() == config,
    {
        Database { config }
    }

    /// The configuration of the store.
    pub closed spec fn config(&self) -> &'a Config {
        self.config
    }

    /// The configuration of the store.
    pub fn get_config(&self) -> (r: &'a Config)
        ensures
            r == self.config(),
    {
        self.config
    }
}

/// The sum of two numbers.
pub fn add(left: u64, right: u64) -> (r: u64)
    requires
        left + right <= u64::MAX,
    ensures
        r == left + right,
{
    left + right
}

} // verus!
