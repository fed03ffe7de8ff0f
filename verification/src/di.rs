//! Dependency injection: a container that registers services by type —
//! singletons created once and shared, factories invoked per resolution,
//! and scoped instances provided per scope.
//!
//! Storage is a type-erased map from a type's identity to its boxed value,
//! which lies beyond the verifier's model of values: the contracts here
//! track the set of registered keys abstractly and the registration counts
//! exactly, while which key belongs to which Rust type, and what a downcast
//! yields, is validated by the test suite rather than proved.

use vstd::prelude::*;

use std::any::Any;
use std::collections::HashMap;
use std::sync::Arc;

verus! {

/// Failure of a container operation.
#[derive(Debug)]
pub enum DIError {
    /// No service is registered under the requested type.
    ServiceNotFound(String),
    /// Registrations form a cycle.
    CircularDependency,
    /// A service is already registered under the requested type.
    AlreadyRegistered(String),
    /// The requested lifetime does not fit the registration.
    InvalidLifetime,
}

/// Type-erased singleton storage: a map from a type's identity to the
/// boxed, shared service instance.
#[verifier::external_body]
pub struct ErasedServices {
    inner: HashMap<std::any::TypeId, Box<dyn Any + Send + Sync>>,
}

/// Type-erased factory storage: a map from a type's identity to a boxed
/// closure that builds one boxed service instance per call.
#[verifier::external_body]
pub struct ErasedFactories {
    inner: HashMap<std::any::TypeId, Box<dyn Fn() -> Box<dyn Any + Send + Sync> + Send + Sync>>,
}

/// The keys registered in a singleton store, as abstract identities.
pub uninterp spec fn service_keys(m: ErasedServices) -> Set<int>;

/// The keys registered in a factory store, as abstract identities.
pub uninterp spec fn factory_keys(m: ErasedFactories) -> Set<int>;

/// Relies on HashMap::new: a fresh map holds no keys.
#[verifier::external_body]
fn erased_services_new() -> (r: ErasedServices)
    ensures
        service_keys(r) == Set::<int>::empty(),
{
    ErasedServices { inner: HashMap::new() }
}

/// Relies on HashMap::new: a fresh map holds no keys.
#[verifier::external_body]
fn erased_factories_new() -> (r: ErasedFactories)
    ensures
        factory_keys(r) == Set::<int>::empty(),
{
    ErasedFactories { inner: HashMap::new() }
}

/// Relies on HashMap::insert under `T`'s type identity: afterwards that key
/// is present, nothing else changes, and the result says whether the key
/// was present before.
#[verifier::external_body]
fn erased_store<T: Send + Sync + 'static>(m: &mut ErasedServices, v: Arc<T>) -> (was: bool)
    ensures
        exists|k: int|
            service_keys(*final(m)) == service_keys(*old(m)).insert(k) && was == service_keys(
                *old(m),
            ).contains(k),
{
    m.inner.insert(std::any::TypeId::of::<T>(), Box::new(v)).is_some()
}

/// Relies on HashMap::get under `T`'s type identity: a hit means some key
/// is present; an empty store always misses.
#[verifier::external_body]
fn erased_fetch<T: Send + Sync + 'static>(m: &ErasedServices) -> (r: Option<Arc<T>>)
    ensures
        r is Some ==> exists|k: int| service_keys(*m).contains(k),
        service_keys(*m) == Set::<int>::empty() ==> r is None,
{
    match m.inner.get(&std::any::TypeId::of::<T>()) {
        Some(b) => b.downcast_ref::<Arc<T>>().cloned(),
        None => None,
    }
}

/// Relies on HashMap::insert under `T`'s type identity, boxing the factory
/// so each resolution can build a fresh instance; the result says whether
/// the key was present. The factory must be callable unconditionally,
/// because `erased_call_factory` later invokes whatever was stored.
#[verifier::external_body]
fn erased_store_factory<T: Send + Sync + 'static, F: Fn() -> Arc<T> + Send + Sync + 'static>(
    m: &mut ErasedFactories,
    f: F,
) -> (was: bool)
    requires
        call_requires(f, ()),
    ensures
        exists|k: int|
            factory_keys(*final(m)) == factory_keys(*old(m)).insert(k) && was == factory_keys(
                *old(m),
            ).contains(k),
{
    let boxed: Box<dyn Fn() -> Box<dyn Any + Send + Sync> + Send + Sync> = Box::new(
        move || Box::new(f()),
    );
    m.inner.insert(std::any::TypeId::of::<T>(), boxed).is_some()
}

/// Relies on HashMap::get under `T`'s type identity and on the stored
/// closure: a hit means some key is present; an empty store always misses.
#[verifier::external_body]
fn erased_call_factory<T: Send + Sync + 'static>(m: &ErasedFactories) -> (r: Option<Arc<T>>)
    ensures
        r is Some ==> exists|k: int| factory_keys(*m).contains(k),
        factory_keys(*m) == Set::<int>::empty() ==> r is None,
{
    match m.inner.get(&std::any::TypeId::of::<T>()) {
        Some(f) => match f().downcast::<Arc<T>>() {
            Ok(b) => Some(*b),
            Err(_) => None,
        },
        None => None,
    }
}

/// Registers and resolves services by type.
pub struct Container {
    services: ErasedServices,
    factories: ErasedFactories,
    scoped_count: usize,
    n_services: usize,
    n_factories: usize,
}

impl Container {
    /// Keys under which a singleton is registered.
    pub closed spec fn skeys(&self) -> Set<int> {
        service_keys(self.services)
    }

    /// Keys under which a factory is registered.
    pub closed spec fn fkeys(&self) -> Set<int> {
        factory_keys(self.factories)
    }

    /// How many singletons are registered.
    pub closed spec fn n_singletons(&self) -> int {
        self.n_services as int
    }

    /// How many factories are registered.
    pub closed spec fn n_transients(&self) -> int {
        self.n_factories as int
    }

    /// An empty container.
    pub fn new() -> (r: Container)
        ensures
            r.skeys() == Set::<int>::empty(),
            r.fkeys() == Set::<int>::empty(),
            r.n_singletons() == 0,
            r.n_transients() == 0,
    {
        Container {
            services: erased_services_new(),
            factories: erased_factories_new(),
            scoped_count: 0,
            n_services: 0,
            n_factories: 0,
        }
    }

    /// How many services (singletons and factories together) are registered.
    pub fn service_count(&self) -> (r: usize)
        ensures
            r == vstd::math::min(self.n_singletons() + self.n_transients(), usize::MAX as int),
    {
        crate::text::sat_add_usize(self.n_services, self.n_factories)
    }

    /// Creates the singleton now and registers it under `T`: one key is
    /// added to the singleton keys (replacing any earlier registration of
    /// the same type), the count grows exactly on a fresh key, and the
    /// factory registrations are untouched.
    pub fn register_singleton<
        T: Send + Sync + 'static,
        F: Fn() -> Arc<T> + Send + Sync + 'static,
    >(&mut self, factory: F)
        requires
            call_requires(factory, ()),
        ensures
            exists|k: int|
                final(self).skeys() == old(self).skeys().insert(k) && final(self).n_singletons()
                    == (if old(self).skeys().contains(k) {
                    old(self).n_singletons()
                } else {
                    vstd::math::min(old(self).n_singletons() + 1, usize::MAX as int)
                }),
            final(self).fkeys() == old(self).fkeys(),
            final(self).n_transients() == old(self).n_transients(),
    {
        let service = factory();
        let was = erased_store(&mut self.services, service);
        if !was {
            self.n_services = crate::text::sat_add_usize(self.n_services, 1);
        }
        proof {
            let k = choose|k: int|
                service_keys(self.services) == service_keys(old(self).services).insert(k) && was
                    == service_keys(old(self).services).contains(k);
            assert(self.skeys() == old(self).skeys().insert(k) && self.n_singletons() == (
            if old(self).skeys().contains(k) {
                old(self).n_singletons()
            } else {
                vstd::math::min(old(self).n_singletons() + 1, usize::MAX as int)
            }));
        }
    }

    /// Registers a factory under `T`; each resolution of `T` will invoke it
    /// for a fresh instance.
    pub fn register_factory<
        T: Send + Sync + 'static,
        F: Fn() -> Arc<T> + Send + Sync + 'static,
    >(&mut self, factory: F)
        requires
            call_requires(factory, ()),
        ensures
            exists|k: int|
                final(self).fkeys() == old(self).fkeys().insert(k) && final(self).n_transients()
                    == (if old(self).fkeys().contains(k) {
                    old(self).n_transients()
                } else {
                    vstd::math::min(old(self).n_transients() + 1, usize::MAX as int)
                }),
            final(self).skeys() == old(self).skeys(),
            final(self).n_singletons() == old(self).n_singletons(),
    {
        let was = erased_store_factory(&mut self.factories, factory);
        if !was {
            self.n_factories = crate::text::sat_add_usize(self.n_factories, 1);
        }
        proof {
            let k = choose|k: int|
                factory_keys(self.factories) == factory_keys(old(self).factories).insert(k) && was
                    == factory_keys(old(self).factories).contains(k);
            assert(self.fkeys() == old(self).fkeys().insert(k) && self.n_transients() == (
            if old(self).fkeys().contains(k) {
                old(self).n_transients()
            } else {
                vstd::math::min(old(self).n_transients() + 1, usize::MAX as int)
            }));
        }
    }

    /// Registers the singleton `T`, first resolving its dependencies `D`
    /// from this container; where a dependency is missing, nothing changes.
    pub fn register_singleton_with_deps<
        T: Send + Sync + 'static,
        D: ResolveDependencies,
        F: Fn(D) -> Arc<T> + Send + Sync + 'static,
    >(&mut self, factory: F)
        requires
            forall|d: D| call_requires(factory, (d,)),
        ensures
            (exists|k: int|
                final(self).skeys() == old(self).skeys().insert(k) && final(self).n_singletons()
                    == (if old(self).skeys().contains(k) {
                    old(self).n_singletons()
                } else {
                    vstd::math::min(old(self).n_singletons() + 1, usize::MAX as int)
                })) || *final(self) == *old(self),
            final(self).fkeys() == old(self).fkeys(),
            final(self).n_transients() == old(self).n_transients(),
    {
        match D::resolve(self) {
            Some(deps) => {
                let service = factory(deps);
                let was = erased_store(&mut self.services, service);
                if !was {
                    self.n_services = crate::text::sat_add_usize(self.n_services, 1);
                }
                proof {
                    let k = choose|k: int|
                        service_keys(self.services) == service_keys(old(self).services).insert(k)
                            && was == service_keys(old(self).services).contains(k);
                    assert(self.skeys() == old(self).skeys().insert(k) && self.n_singletons() == (
                    if old(self).skeys().contains(k) {
                        old(self).n_singletons()
                    } else {
                        vstd::math::min(old(self).n_singletons() + 1, usize::MAX as int)
                    }));
                }
            },
            None => {},
        }
    }

    /// Marks `T` as scoped: instances are provided per scope, not here.
    pub fn register_scoped<T: Send + Sync + 'static>(&mut self)
        ensures
            final(self).skeys() == old(self).skeys(),
            final(self).fkeys() == old(self).fkeys(),
            final(self).n_singletons() == old(self).n_singletons(),
            final(self).n_transients() == old(self).n_transients(),
    {
        self.scoped_count = crate::text::sat_add_usize(self.scoped_count, 1);
    }

    /// Resolves `T`: the registered singleton if there is one, else a fresh
    /// instance from the registered factory, else `ServiceNotFound`. Which
    /// key a type maps to is beyond the verified model; a resolution can
    /// only succeed on a registered key, so on an empty container it always
    /// fails.
    pub fn resolve<T: Send + Sync + 'static>(&self) -> (r: Result<Arc<T>, DIError>)
        ensures
            r is Ok ==> (exists|k: int|
                #![auto]
                self.skeys().contains(k) || self.fkeys().contains(k)),
            r matches Err(e) ==> e is ServiceNotFound,
    {
        match erased_fetch::<T>(&self.services) {
            Some(v) => {
                proof {
                    let k = choose|k: int| service_keys(self.services).contains(k);
                    assert(self.skeys().contains(k) || self.fkeys().contains(k));
                }
                Ok(v)
            },
            None => {
                match erased_call_factory::<T>(&self.factories) {
                    Some(v) => {
                        proof {
                            let k = choose|k: int| factory_keys(self.factories).contains(k);
                            assert(self.skeys().contains(k) || self.fkeys().contains(k));
                        }
                        Ok(v)
                    },
                    None => Err(
                        DIError::ServiceNotFound(
                            String::from_str("no service registered under the requested type"),
                        ),
                    ),
                }
            },
        }
    }

    /// A fresh scope over this container: resolution prefers instances
    /// provided to the scope and falls back to the container.
    pub fn create_scope(&self) -> (r: Scope<'_>)
        ensures
            r.provided_keys() == Set::<int>::empty(),
    {
        Scope { container: self, scoped_instances: erased_services_new() }
    }
}

/// One resolution scope: per-scope instances over a shared container.
pub struct Scope<'a> {
    container: &'a Container,
    scoped_instances: ErasedServices,
}

impl<'a> Scope<'a> {
    /// Keys provided to this scope.
    pub closed spec fn provided_keys(&self) -> Set<int> {
        service_keys(self.scoped_instances)
    }

    /// Provides this scope's instance of `T`.
    pub fn provide<T: Send + Sync + 'static>(&mut self, instance: Arc<T>)
        ensures
            exists|k: int|
                final(self).provided_keys() == old(self).provided_keys().insert(k),
    {
        let was = erased_store(&mut self.scoped_instances, instance);
        proof {
            let k = choose|k: int|
                service_keys(self.scoped_instances) == service_keys(
                    old(self).scoped_instances,
                ).insert(k) && was == service_keys(old(self).scoped_instances).contains(k);
            assert(self.provided_keys() == old(self).provided_keys().insert(k));
        }
    }

    /// Resolves `T` from this scope's instances, falling back to the
    /// container's registrations.
    pub fn resolve<T: Send + Sync + 'static>(&self) -> (r: Result<Arc<T>, DIError>)
        ensures
            r matches Err(e) ==> e is ServiceNotFound,
    {
        match erased_fetch::<T>(&self.scoped_instances) {
            Some(v) => Ok(v),
            None => self.container.resolve::<T>(),
        }
    }
}

/// Resolves a bundle of dependencies out of a container; implemented for
/// tuples of shared services.
pub trait ResolveDependencies: Sized {
    /// All dependencies of the bundle, or `None` where one is missing.
    fn resolve(container: &Container) -> Option<Self>;
}

impl<T1: Send + Sync + 'static> ResolveDependencies for (Arc<T1>,) {
    fn resolve(container: &Container) -> Option<Self> {
        match container.resolve::<T1>() {
            Ok(a) => Some((a,)),
            Err(_) => None,
        }
    }
}

/// Builds a container by chained registrations.
pub struct ContainerBuilder {
    container: Container,
}

impl ContainerBuilder {
    /// Keys under which a singleton is registered so far.
    pub closed spec fn skeys(&self) -> Set<int> {
        self.container.skeys()
    }

    /// Keys under which a factory is registered so far.
    pub closed spec fn fkeys(&self) -> Set<int> {
        self.container.fkeys()
    }

    /// A builder over an empty container.
    pub fn new() -> (r: ContainerBuilder)
        ensures
            r.skeys() == Set::<int>::empty(),
            r.fkeys() == Set::<int>::empty(),
    {
        ContainerBuilder { container: Container::new() }
    }

    /// Registers a singleton and hands the builder back.
    pub fn register_singleton<
        T: Send + Sync + 'static,
        F: Fn() -> Arc<T> + Send + Sync + 'static,
    >(self, factory: F) -> (r: ContainerBuilder)
        requires
            call_requires(factory, ()),
        ensures
            exists|k: int| r.skeys() == self.skeys().insert(k),
            r.fkeys() == self.fkeys(),
    {
        let mut b = self;
        b.container.register_singleton::<T, F>(factory);
        proof {
            let k = choose|k: int|
                #![auto]
                b.container.skeys() == self.container.skeys().insert(k);
            assert(b.skeys() == self.skeys().insert(k));
        }
        b
    }

    /// Registers a factory and hands the builder back.
    pub fn register_factory<
        T: Send + Sync + 'static,
        F: Fn() -> Arc<T> + Send + Sync + 'static,
    >(self, factory: F) -> (r: ContainerBuilder)
        requires
            call_requires(factory, ()),
        ensures
            exists|k: int| r.fkeys() == self.fkeys().insert(k),
            r.skeys() == self.skeys(),
    {
        let mut b = self;
        b.container.register_factory::<T, F>(factory);
        proof {
            let k = choose|k: int|
                #![auto]
                b.container.fkeys() == self.container.fkeys().insert(k);
            assert(b.fkeys() == self.fkeys().insert(k));
        }
        b
    }

    /// The finished container.
    pub fn build(self) -> (r: Container)
        ensures
            r.skeys() == self.skeys(),
            r.fkeys() == self.fkeys(),
    {
        self.container
    }
}

impl DIError {
    /// The human-readable message, for display by a front end.
    pub fn message(&self) -> (r: String)
        ensures
            self matches DIError::ServiceNotFound(n) ==> r@ == "Service not found: "@ + n@,
    {
        match self {
            DIError::ServiceNotFound(n) => String::from_str("Service not found: ").concat(
                n.as_str(),
            ),
            DIError::CircularDependency => String::from_str("Circular dependency detected"),
            DIError::AlreadyRegistered(n) => String::from_str(
                "Service already registered: ",
            ).concat(n.as_str()),
            DIError::InvalidLifetime => String::from_str("Invalid service lifetime"),
        }
    }
}

} // verus!
