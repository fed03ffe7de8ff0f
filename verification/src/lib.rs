use vstd::prelude::*;

pub mod app_config;
pub mod config;
pub mod container;
pub mod di;
pub mod error;
pub mod git;
pub mod repl;
pub mod service;
pub mod slash;
pub mod supervisor;
pub mod swarm;
pub mod text;

verus! {

/// Builds the service container for this process from its configuration.
/// The caller then registers the providers the environment makes available;
/// there is no hidden global state.
pub fn init<P>(config: config::Config) -> (r: Result<service::ServiceContainer<P>, error::Error>)
    ensures
        r is Ok,
        r matches Ok(c) ==> c.names().len() == 0 && c.spec_config() == config@,
{
    service::ServiceContainer::new(config)
}

} // verus!
