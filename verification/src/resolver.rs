//! The dependency-resolver capability.
//!
//! Turning a declared (name, version-constraint) pair into a concrete
//! dependency manifest and download location is delegated to a resolver: a
//! registry client, a local cache, or a fixed lookup table.  The trait
//! carries a specification-level resolution table, `resolve_spec`; an
//! implementation may fail even where the table has an answer (a registry
//! is reachable only sometimes), but a successful answer always agrees
//! with the table.

use vstd::prelude::*;
use crate::manifest::{Manifest, ManifestV};
use crate::strkey::str_eq;

verus! {

/// What the resolver hands back for one dependency: the declared name, the
/// dependency's fully resolved manifest, and a download locator.
pub struct Dependency {
    pub name: String,
    pub manifest: Manifest,
    pub download_url: String,
}

/// The view of a resolved dependency.
pub struct DependencyV {
    pub name: Seq<char>,
    pub manifest: ManifestV,
    pub download_url: Seq<char>,
}

impl View for Dependency {
    type V = DependencyV;

    open spec fn view(&self) -> DependencyV {
        DependencyV {
            name: self.name@,
            manifest: self.manifest@,
            download_url: self.download_url@,
        }
    }
}

impl Clone for Dependency {
    fn clone(&self) -> (r: Self)
        ensures
            r@ == self@,
    {
        Dependency {
            name: self.name.clone(),
            manifest: self.manifest.clone(),
            download_url: self.download_url.clone(),
        }
    }
}

/// A failure to resolve one declared dependency; it carries the name and
/// the literal version constraint that could not be resolved.
#[derive(Debug)]
pub struct ResolveError {
    pub name: String,
    pub version: String,
}

/// The resolver capability consumed during lock construction.
pub trait DependencyResolver {
    /// The resolutions this resolver can answer, as a function from the
    /// declared name and version constraint to the resolved dependency.
    spec fn resolve_spec(&self, name: Seq<char>, version: Seq<char>) -> Option<DependencyV>;

    /// Resolves one declared dependency.  A successful answer agrees with
    /// `resolve_spec`; a failure carries back exactly the pair that was
    /// asked.
    fn resolve(&self, name: &str, version: &str) -> (r: Result<Dependency, ResolveError>)
        ensures
            r matches Ok(d) ==> self.resolve_spec(name@, version@) == Some(d@),
            r matches Err(e) ==> e.name@ == name@ && e.version@ == version@,
    ;
}

/// What a resolver's specification table answers for each pair of a
/// sequence of declared (name, constraint) pairs, position by position.
pub open spec fn resolutions_of<D: DependencyResolver>(
    resolver: &D,
    pairs: Seq<(Seq<char>, Seq<char>)>,
) -> Seq<DependencyV> {
    Seq::new(pairs.len(), |i: int| resolver.resolve_spec(pairs[i].0, pairs[i].1)->Some_0)
}

/// A resolver backed by a fixed lookup table, for deterministic use: it
/// answers exactly the pairs its table holds, a later table entry for the
/// same pair overriding an earlier one, and fails on every other pair.
pub struct TestResolver(pub Vec<((String, String), Dependency)>);

/// The answer of a fixed lookup table, searched from its last entry.
pub open spec fn table_lookup(
    t: Seq<((Seq<char>, Seq<char>), DependencyV)>,
    name: Seq<char>,
    version: Seq<char>,
) -> Option<DependencyV>
    decreases t.len(),
{
    if t.len() == 0 {
        None
    } else if t.last().0 == (name, version) {
        Some(t.last().1)
    } else {
        table_lookup(t.drop_last(), name, version)
    }
}

impl TestResolver {
    /// The table as a sequence of ((name, version), dependency) views.
    pub open spec fn table(&self) -> Seq<((Seq<char>, Seq<char>), DependencyV)> {
        self.0@.map(|i: int, e: ((String, String), Dependency)| (((e.0).0@, (e.0).1@), e.1@))
    }
}

impl DependencyResolver for TestResolver {
    open spec fn resolve_spec(&self, name: Seq<char>, version: Seq<char>) -> Option<DependencyV> {
        table_lookup(self.table(), name, version)
    }

    fn resolve(&self, name: &str, version: &str) -> (r: Result<Dependency, ResolveError>)
        ensures
            r matches Ok(d) ==> self.resolve_spec(name@, version@) == Some(d@),
            r matches Err(e) ==> e.name@ == name@ && e.version@ == version@,
            r is Ok <==> self.resolve_spec(name@, version@) is Some,
    {
        let ghost t = self.table();
        let mut i: usize = self.0.len();
        proof {
            assert(t.take(i as int) =~= t);
        }
        while i > 0
            invariant
                i <= self.0.len(),
                t == self.table(),
                table_lookup(t, name@, version@) == table_lookup(t.take(i as int), name@, version@),
            decreases i,
        {
            i = i - 1;
            let e = &self.0[i];
            proof {
                assert(t.take(i as int + 1).drop_last() =~= t.take(i as int));
                assert(t.take(i as int + 1).last() == t[i as int]);
            }
            if str_eq(e.0.0.as_str(), name) && str_eq(e.0.1.as_str(), version) {
                return Ok(e.1.clone());
            }
        }
        proof {
            assert(t.take(0) =~= Seq::<((Seq<char>, Seq<char>), DependencyV)>::empty());
        }
        Err(ResolveError { name: name.to_owned(), version: version.to_owned() })
    }
}

} // verus!
