//! The providers of a gateway by name.
use vstd::prelude::*;

use crate::canonical::{BackendTarget, CanonicalRequest};
use crate::error::ProviderError;
use crate::sorted_map::{found, inserted, SortedMap};

verus! {

/// Providers by name. `P` is a handle to a provider.
#[derive(Debug)]
pub struct ProviderRegistry<P> {
    providers: SortedMap<P>,
}

impl<P> ProviderRegistry<P> {
    /// The names and handles, in the order of the names.
    pub closed spec fn view(&self) -> Seq<(Seq<char>, P)> {
        self.providers@
    }

    pub closed spec fn well_formed(&self) -> bool {
        self.providers.well_formed()
    }

    pub fn new() -> (registry: ProviderRegistry<P>)
        ensures
            registry.well_formed(),
            registry@ == Seq::<(Seq<char>, P)>::empty(),
    {
        ProviderRegistry { providers: SortedMap::new() }
    }

    /// Puts a provider under a name, in place of the one that is there.
    pub fn register(&mut self, name: String, provider: P)
        requires
            old(self).well_formed(),
        ensures
            final(self).well_formed(),
            final(self)@ == inserted(old(self)@, name@, provider),
    {
        self.providers.insert(name, provider);
    }

    /// The provider under a name.
    pub fn get(&self, name: &str) -> (provider: Option<&P>)
        ensures
            match provider {
                Some(p) => found(self@, name@) == Some(*p),
                None => found(self@, name@) is None,
            },
    {
        self.providers.get(name)
    }

    /// All providers, in the order of their names.
    pub fn iter(&self) -> (all: Vec<(&str, &P)>)
        ensures
            all@.len() == self@.len(),
            forall|i: int|
                0 <= i < all@.len() ==> ((#[trigger] all@[i]).0@, *all@[i].1) == self@[i],
    {
        let mut all: Vec<(&str, &P)> = Vec::new();
        let mut i: usize = 0;
        while i < self.providers.len()
            invariant
                i <= self.providers@.len(),
                all@.len() == i,
                forall|k: int|
                    0 <= k < i ==> ((#[trigger] all@[k]).0@, *all@[k].1) == self.providers@[k],
            decreases self.providers@.len() - i,
        {
            all.push((self.providers.name_at(i), self.providers.value_at(i)));
            i = i + 1;
        }
        all
    }

    /// The provider that a target names, with the request and the target. An
    /// unknown name is an error.
    pub fn resolve(&self, req: CanonicalRequest, target: BackendTarget) -> (resolved: Result<
        (&P, CanonicalRequest, BackendTarget),
        ProviderError,
    >)
        ensures
            match found(self@, target.provider@) {
                Some(p) => resolved == Ok::<(&P, CanonicalRequest, BackendTarget), ProviderError>(
                    (&p, req, target),
                ),
                None => match resolved {
                    Err(ProviderError::UnknownProvider(name)) => name@ == target.provider@,
                    _ => false,
                },
            },
    {
        match self.providers.get(target.provider.as_str()) {
            Some(provider) => Ok((provider, req, target)),
            None => Err(ProviderError::UnknownProvider(target.provider.clone())),
        }
    }
}

impl<P> Default for ProviderRegistry<P> {
    fn default() -> (registry: ProviderRegistry<P>)
        ensures
            registry.well_formed(),
            registry@ == Seq::<(Seq<char>, P)>::empty(),
    {
        ProviderRegistry::new()
    }
}

} // verus!
