//! The service container: a registry of completion providers keyed by name,
//! with the default-provider selection rule.
//!
//! The provider handles themselves (clients talking to a completion API) are
//! opaque to the library: the container is generic over the handle type and
//! owns only the name-keyed bookkeeping. The surrounding binary decides
//! which providers exist (for instance from an API key in the environment)
//! and registers them.

use vstd::prelude::*;

use crate::config::Config;
use crate::error::Error;
use crate::text::str_eq;

verus! {

/// Registry of completion providers, keyed by name.
pub struct ServiceContainer<P> {
    providers: Vec<(String, P)>,
    config: Config,
}

impl<P> ServiceContainer<P> {
    /// The registered provider names, in registration order.
    pub closed spec fn names(&self) -> Seq<Seq<char>> {
        self.providers@.map_values(|e: (String, P)| e.0@)
    }

    /// The provider registered at position `k`.
    pub closed spec fn provider_at(&self, k: int) -> P {
        self.providers@[k].1
    }

    /// The configuration the container was built with.
    pub closed spec fn spec_config(&self) -> crate::config::OpenAIConfigView {
        self.config@
    }

    /// Is some provider named `name` registered?
    pub open spec fn has_provider(&self, name: Seq<char>) -> bool {
        self.names().contains(name)
    }

    /// A container with no providers; the caller registers what the
    /// configuration and environment make available.
    pub fn new(config: Config) -> (r: Result<ServiceContainer<P>, Error>)
        ensures
            r is Ok,
            r matches Ok(c) ==> c.names().len() == 0 && c.spec_config() == config@,
    {
        let r = ServiceContainer { providers: Vec::new(), config };
        proof {
            assert(r.names() =~= Seq::<Seq<char>>::empty());
        }
        Ok(r)
    }

    /// Index of the provider named `name`, if any.
    fn find_provider(&self, name: &str) -> (r: Option<usize>)
        ensures
            r matches Some(k) ==> 0 <= k < self.names().len() && self.names()[k as int] == name@,
            r is None ==> !self.has_provider(name@),
    {
        let mut k: usize = 0;
        while k < self.providers.len()
            invariant
                k <= self.providers.len(),
                forall|j: int| 0 <= j < k ==> self.names()[j] != name@,
            decreases self.providers.len() - k,
        {
            if str_eq(self.providers[k].0.as_str(), name) {
                return Some(k);
            }
            k += 1;
        }
        None
    }

    /// Registers `provider` under `name`, replacing any provider already
    /// registered under that name.
    pub fn register_provider(&mut self, name: &str, provider: P)
        ensures
            final(self).has_provider(name@),
            final(self).spec_config() == old(self).spec_config(),
            !old(self).has_provider(name@) ==> final(self).names() == old(self).names().push(
                name@,
            ) && final(self).provider_at(old(self).names().len() as int) == provider,
            old(self).has_provider(name@) ==> final(self).names() == old(self).names(),
    {
        match self.find_provider(name) {
            Some(k) => {
                let ghost pre = self.providers@;
                let _ = self.providers.remove(k);
                self.providers.insert(k, (name.to_owned(), provider));
                proof {
                    assert(self.names() =~= pre.map_values(|e: (String, P)| e.0@));
                    assert(self.names().contains(name@)) by {
                        assert(self.names()[k as int] == name@);
                    }
                }
            },
            None => {
                let ghost pre = self.providers@;
                self.providers.push((name.to_owned(), provider));
                proof {
                    assert(self.names() =~= pre.map_values(|e: (String, P)| e.0@).push(name@));
                    assert(self.names().contains(name@)) by {
                        assert(self.names()[pre.len() as int] == name@);
                    }
                }
            },
        }
    }

    /// The provider registered under `name`; fails with a service error
    /// exactly when no such provider exists.
    pub fn get_provider(&self, name: &str) -> (r: Result<&P, Error>)
        ensures
            r is Ok <==> self.has_provider(name@),
            r matches Ok(p) ==> exists|k: int|
                0 <= k < self.names().len() && self.names()[k] == name@ && self.provider_at(k)
                    == *p,
            r matches Err(e) ==> e is Service,
    {
        match self.find_provider(name) {
            Some(k) => {
                proof {
                    assert(self.names()[k as int] == name@ && self.provider_at(k as int)
                        == self.providers@[k as int].1);
                }
                Ok(&self.providers[k].1)
            },
            None => {
                let msg = String::from_str("Provider '").concat(name).concat("' not found");
                Err(Error::Service(msg))
            },
        }
    }

    /// The default provider: the one named `openai` when registered, else
    /// the first registered provider; fails with a service error exactly
    /// when the container is empty.
    pub fn get_default_provider(&self) -> (r: Result<&P, Error>)
        ensures
            r is Ok <==> self.names().len() > 0,
            r matches Ok(p) ==> {
                if self.has_provider("openai"@) {
                    exists|k: int|
                        0 <= k < self.names().len() && self.names()[k] == "openai"@
                            && self.provider_at(k) == *p
                } else {
                    self.provider_at(0) == *p
                }
            },
            r matches Err(e) ==> e is Service,
    {
        match self.find_provider("openai") {
            Some(k) => {
                proof {
                    assert(self.names().contains("openai"@)) by {
                        assert(self.names()[k as int] == "openai"@);
                    }
                    assert(self.provider_at(k as int) == self.providers@[k as int].1);
                }
                Ok(&self.providers[k].1)
            },
            None => {
                if self.providers.len() > 0 {
                    proof {
                        assert(self.names().len() > 0);
                        assert(self.provider_at(0) == self.providers@[0].1);
                    }
                    Ok(&self.providers[0].1)
                } else {
                    Err(Error::Service(String::from_str("No providers available")))
                }
            },
        }
    }

    /// The registered provider names.
    pub fn list_providers(&self) -> (r: Vec<String>)
        ensures
            r@.map_values(|t: String| t@) == self.names(),
    {
        let mut r: Vec<String> = Vec::new();
        let mut k: usize = 0;
        while k < self.providers.len()
            invariant
                k <= self.providers.len(),
                r@.map_values(|t: String| t@) =~= self.names().subrange(0, k as int),
            decreases self.providers.len() - k,
        {
            let ghost prev = r@;
            let n = self.providers[k].0.clone();
            r.push(n);
            proof {
                assert(r@ == prev.push(n));
                assert(r@.map_values(|t: String| t@) =~= prev.map_values(|t: String| t@).push(n@));
                assert(r@.map_values(|t: String| t@) =~= self.names().subrange(0, k as int + 1));
            }
            k += 1;
        }
        proof {
            assert(r@.map_values(|t: String| t@) =~= self.names());
        }
        r
    }

    /// The configuration.
    pub fn config(&self) -> (r: &Config)
        ensures
            r@ == self.spec_config(),
    {
        &self.config
    }

    /// Replaces the configuration and clears the registrations, so the
    /// caller can re-register what the new configuration makes available.
    pub fn update_config(&mut self, config: Config) -> (r: Result<(), Error>)
        ensures
            r is Ok,
            final(self).names().len() == 0,
            final(self).spec_config() == config@,
    {
        self.config = config;
        self.providers.clear();
        proof {
            assert(self.names() =~= Seq::<Seq<char>>::empty());
        }
        Ok(())
    }
}

} // verus!
