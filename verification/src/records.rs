//! The resolved side of the reconciliation: the records a lock state holds.

use vstd::prelude::*;
use crate::manifest::{ManifestModule, ManifestModuleV};

verus! {

/// A concrete, resolved module: produced once from a resolver's answer and
/// never mutated, only copied forward unchanged across reconciliations.
pub struct LockfileModule {
    pub name: String,
    pub version: String,
    pub source: String,
    pub resolved: String,
    pub integrity: String,
    pub hash: String,
    pub abi: String,
    pub entry: String,
}

/// The view of a resolved module record.
pub struct LockfileModuleV {
    pub name: Seq<char>,
    pub version: Seq<char>,
    pub source: Seq<char>,
    pub resolved: Seq<char>,
    pub integrity: Seq<char>,
    pub hash: Seq<char>,
    pub abi: Seq<char>,
    pub entry: Seq<char>,
}

impl View for LockfileModule {
    type V = LockfileModuleV;

    open spec fn view(&self) -> LockfileModuleV {
        LockfileModuleV {
            name: self.name@,
            version: self.version@,
            source: self.source@,
            resolved: self.resolved@,
            integrity: self.integrity@,
            hash: self.hash@,
            abi: self.abi@,
            entry: self.entry@,
        }
    }
}

impl Clone for LockfileModule {
    fn clone(&self) -> (r: Self)
        ensures
            r@ == self@,
    {
        LockfileModule {
            name: self.name.clone(),
            version: self.version.clone(),
            source: self.source.clone(),
            resolved: self.resolved.clone(),
            integrity: self.integrity.clone(),
            hash: self.hash.clone(),
            abi: self.abi.clone(),
            entry: self.entry.clone(),
        }
    }
}

/// A command entry of the lock state: the string key of the module that
/// implements the command.
pub struct LockfileCommand {
    pub module: String,
}

/// The view of a command entry.
pub struct LockfileCommandV {
    pub module: Seq<char>,
}

impl View for LockfileCommand {
    type V = LockfileCommandV;

    open spec fn view(&self) -> LockfileCommandV {
        LockfileCommandV { module: self.module@ }
    }
}

impl Clone for LockfileCommand {
    fn clone(&self) -> (r: Self)
        ensures
            r@ == self@,
    {
        LockfileCommand { module: self.module.clone() }
    }
}

/// The module record built from the module a resolved manifest declares:
/// the record carries the module's own name and version, the source locator
/// is derived from that name, the resolved URL is the resolver's download
/// locator, and the integrity digest and content hash start out empty.
pub open spec fn module_record_of(m: ManifestModuleV, download_url: Seq<char>) -> LockfileModuleV {
    LockfileModuleV {
        name: m.name,
        version: m.version,
        source: "registry+"@ + m.name,
        resolved: download_url,
        integrity: Seq::empty(),
        hash: Seq::empty(),
        abi: m.abi,
        entry: m.entry,
    }
}

impl LockfileModule {
    /// Builds the lock record for the module a resolved manifest declares.
    pub fn from_module(module: &ManifestModule, download_url: &str) -> (r: Self)
        ensures
            r@ == module_record_of(module@, download_url@),
    {
        let mut source = "registry+".to_owned();
        source.append(module.name.as_str());
        let empty_integrity = "".to_owned();
        let empty_hash = "".to_owned();
        proof {
            reveal_strlit("");
            assert(empty_integrity@ =~= Seq::<char>::empty());
            assert(empty_hash@ =~= Seq::<char>::empty());
        }
        LockfileModule {
            version: module.version.clone(),
            source,
            resolved: download_url.to_owned(),
            integrity: empty_integrity,
            hash: empty_hash,
            abi: module.abi.clone(),
            entry: module.entry.clone(),
            name: module.name.clone(),
        }
    }
}

impl LockfileCommand {
    /// Builds the command entry that binds a command to the module under
    /// the given lock key.
    pub fn from_command(key: &str) -> (r: Self)
        ensures
            r@ == (LockfileCommandV { module: key@ }),
    {
        LockfileCommand { module: key.to_owned() }
    }
}

/// True exactly when two module records hold the same data, field by field.
pub fn module_matches(a: &LockfileModule, b: &LockfileModule) -> (r: bool)
    ensures
        r == (a@ == b@),
{
    a.name == b.name && a.version == b.version && a.source == b.source
        && a.resolved == b.resolved && a.integrity == b.integrity && a.hash == b.hash
        && a.abi == b.abi && a.entry == b.entry
}

/// True exactly when two command entries name the same module key.
pub fn command_matches(a: &LockfileCommand, b: &LockfileCommand) -> (r: bool)
    ensures
        r == (a@ == b@),
{
    a.module == b.module
}

} // verus!
