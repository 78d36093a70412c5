//! The declared side of the reconciliation: a project manifest.
//!
//! A manifest optionally declares one owned module, a list of exported
//! commands, and a set of direct dependencies, each dependency a name paired
//! with a literal version-constraint string.  The constraint string is
//! opaque here: it is compared verbatim against what an earlier lock
//! recorded, never interpreted as a version range.

use vstd::prelude::*;

verus! {

/// A command declared by a manifest: an externally invocable entry point.
pub struct ManifestCommand {
    pub name: String,
}

/// The view of a declared command.
pub struct ManifestCommandV {
    pub name: Seq<char>,
}

impl View for ManifestCommand {
    type V = ManifestCommandV;

    open spec fn view(&self) -> ManifestCommandV {
        ManifestCommandV { name: self.name@ }
    }
}

/// The module a manifest owns: a resolvable unit of code with a name, a
/// version, an entry path, and a binary-interface kind.
pub struct ManifestModule {
    pub name: String,
    pub version: String,
    pub entry: String,
    pub description: String,
    pub abi: String,
}

/// The view of an owned module declaration.
pub struct ManifestModuleV {
    pub name: Seq<char>,
    pub version: Seq<char>,
    pub entry: Seq<char>,
    pub description: Seq<char>,
    pub abi: Seq<char>,
}

impl View for ManifestModule {
    type V = ManifestModuleV;

    open spec fn view(&self) -> ManifestModuleV {
        ManifestModuleV {
            name: self.name@,
            version: self.version@,
            entry: self.entry@,
            description: self.description@,
            abi: self.abi@,
        }
    }
}

/// A project manifest: an optional owned module, an optional command list,
/// and an optional list of (dependency name, version-constraint) pairs.
pub struct Manifest {
    pub module: Option<ManifestModule>,
    pub command: Option<Vec<ManifestCommand>>,
    pub dependencies: Option<Vec<(String, String)>>,
}

/// The view of a manifest.
pub struct ManifestV {
    pub module: Option<ManifestModuleV>,
    pub command: Option<Seq<ManifestCommandV>>,
    pub dependencies: Option<Seq<(Seq<char>, Seq<char>)>>,
}

impl View for Manifest {
    type V = ManifestV;

    open spec fn view(&self) -> ManifestV {
        ManifestV {
            module: match self.module {
                Some(m) => Some(m@),
                None => None,
            },
            command: match self.command {
                Some(cs) => Some(cs@.map(|i: int, c: ManifestCommand| c@)),
                None => None,
            },
            dependencies: match self.dependencies {
                Some(ds) => Some(ds@.map(|i: int, d: (String, String)| (d.0@, d.1@))),
                None => None,
            },
        }
    }
}

/// The declared dependency pairs of a manifest; an absent dependency table
/// declares none.
pub open spec fn deps_of(m: ManifestV) -> Seq<(Seq<char>, Seq<char>)> {
    match m.dependencies {
        Some(ds) => ds,
        None => Seq::empty(),
    }
}

impl Clone for ManifestCommand {
    fn clone(&self) -> (r: Self)
        ensures
            r@ == self@,
    {
        ManifestCommand { name: self.name.clone() }
    }
}

impl Clone for ManifestModule {
    fn clone(&self) -> (r: Self)
        ensures
            r@ == self@,
    {
        ManifestModule {
            name: self.name.clone(),
            version: self.version.clone(),
            entry: self.entry.clone(),
            description: self.description.clone(),
            abi: self.abi.clone(),
        }
    }
}

impl Clone for Manifest {
    fn clone(&self) -> (r: Self)
        ensures
            r@ == self@,
    {
        let module = match &self.module {
            Some(m) => Some(m.clone()),
            None => None,
        };
        let command = match &self.command {
            Some(cs) => {
                let mut out: Vec<ManifestCommand> = Vec::new();
                let n = cs.len();
                let mut i: usize = 0;
                while i < n
                    invariant
                        n == cs.len(),
                        i <= n,
                        out@.len() == i,
                        forall|j: int| 0 <= j < i ==> (#[trigger] out@[j])@ == cs@[j]@,
                    decreases n - i,
                {
                    out.push(cs[i].clone());
                    i += 1;
                }
                Some(out)
            },
            None => None,
        };
        let dependencies = match &self.dependencies {
            Some(ds) => {
                let mut out: Vec<(String, String)> = Vec::new();
                let n = ds.len();
                let mut i: usize = 0;
                while i < n
                    invariant
                        n == ds.len(),
                        i <= n,
                        out@.len() == i,
                        forall|j: int| 0 <= j < i ==> #[trigger] out@[j] == ds@[j],
                    decreases n - i,
                {
                    let d = &ds[i];
                    out.push((d.0.clone(), d.1.clone()));
                    i += 1;
                }
                Some(out)
            },
            None => None,
        };
        let r = Manifest { module, command, dependencies };
        proof {
            match (&self.command, &r.command) {
                (Some(a), Some(b)) => {
                    assert(b@.map(|i: int, c: ManifestCommand| c@)
                        =~= a@.map(|i: int, c: ManifestCommand| c@));
                },
                _ => {},
            }
            match (&self.dependencies, &r.dependencies) {
                (Some(a), Some(b)) => {
                    assert(b@.map(|i: int, d: (String, String)| (d.0@, d.1@))
                        =~= a@.map(|i: int, d: (String, String)| (d.0@, d.1@)));
                },
                _ => {},
            }
        }
        r
    }
}

} // verus!
