//! The mathematical model of reconciliation.
//!
//! A lock state is a pair of maps; construction is a fold: seed the state
//! (empty, or the unchanged part of an earlier lock), import each resolved
//! dependency in declared order, then import the root manifest's own
//! commands last, so that the root's commands shadow a dependency's
//! same-named command.

use vstd::prelude::*;
use crate::manifest::{ManifestCommandV, ManifestV};
use crate::records::{LockfileCommandV, LockfileModuleV, module_record_of};
use crate::resolver::DependencyV;
use crate::strkey::key_of;

verus! {

/// The view of a whole lock state: resolved modules keyed by
/// `"<name> <version>"`, and commands keyed by command name.
pub struct LockfileV {
    pub modules: Map<Seq<char>, LockfileModuleV>,
    pub commands: Map<Seq<char>, LockfileCommandV>,
}

/// The lock state with no modules and no commands.
pub open spec fn empty_state() -> LockfileV {
    LockfileV { modules: Map::empty(), commands: Map::empty() }
}

/// The command map after binding each declared command, in order, to the
/// module under `key`; a later command of the same name overwrites an
/// earlier one.
pub open spec fn commands_with(
    cmds: Seq<ManifestCommandV>,
    key: Seq<char>,
    base: Map<Seq<char>, LockfileCommandV>,
) -> Map<Seq<char>, LockfileCommandV>
    decreases cmds.len(),
{
    if cmds.len() == 0 {
        base
    } else {
        commands_with(
            cmds.drop_first(),
            key,
            base.insert(cmds.first().name, LockfileCommandV { module: key }),
        )
    }
}

/// The lock state after importing one resolved dependency.  A dependency
/// whose manifest declares no module contributes nothing: its commands, if
/// any, are dropped, since a command needs an owning module.  Otherwise its
/// module record is inserted under the derived key, overwriting any earlier
/// record under the same key, and each of its declared commands is bound to
/// that key.
pub open spec fn import_dep(st: LockfileV, d: DependencyV) -> LockfileV {
    match d.manifest.module {
        None => st,
        Some(m) => {
            let key = key_of(m.name, m.version);
            let modules = st.modules.insert(key, module_record_of(m, d.download_url));
            match d.manifest.command {
                None => LockfileV { modules, commands: st.commands },
                Some(cs) => LockfileV { modules, commands: commands_with(cs, key, st.commands) },
            }
        },
    }
}

/// The lock state after importing a sequence of resolved dependencies in
/// order.
pub open spec fn import_deps(st: LockfileV, ds: Seq<DependencyV>) -> LockfileV
    decreases ds.len(),
{
    if ds.len() == 0 {
        st
    } else {
        import_deps(import_dep(st, ds.first()), ds.drop_first())
    }
}

/// The lock state after importing the root manifest's own commands.  The
/// root contributes commands only if it declares both an owned module and
/// commands; it never contributes a module record.
pub open spec fn import_root(st: LockfileV, m: ManifestV) -> LockfileV {
    match (m.command, m.module) {
        (Some(cs), Some(md)) => LockfileV {
            modules: st.modules,
            commands: commands_with(cs, key_of(md.name, md.version), st.commands),
        },
        _ => st,
    }
}

/// The declared dependencies whose `"<name> <constraint>"` key is absent
/// from the existing module map, in declared order: these must be
/// re-resolved.  The match is on the literal constraint string recorded
/// earlier, never on version semantics.
pub open spec fn changed_of(
    deps: Seq<(Seq<char>, Seq<char>)>,
    existing: Map<Seq<char>, LockfileModuleV>,
) -> Seq<(Seq<char>, Seq<char>)>
    decreases deps.len(),
{
    if deps.len() == 0 {
        Seq::empty()
    } else {
        let rest = changed_of(deps.drop_last(), existing);
        if existing.contains_key(key_of(deps.last().0, deps.last().1)) {
            rest
        } else {
            rest.push(deps.last())
        }
    }
}

/// The existing module records whose `"<name> <constraint>"` key matches a
/// declared dependency verbatim: these are carried forward unchanged, and
/// no resolution happens for them.
pub open spec fn unchanged_of(
    deps: Seq<(Seq<char>, Seq<char>)>,
    existing: Map<Seq<char>, LockfileModuleV>,
) -> Map<Seq<char>, LockfileModuleV>
    decreases deps.len(),
{
    if deps.len() == 0 {
        Map::empty()
    } else {
        let rest = unchanged_of(deps.drop_last(), existing);
        let key = key_of(deps.last().0, deps.last().1);
        if existing.contains_key(key) {
            rest.insert(key, existing[key])
        } else {
            rest
        }
    }
}

/// The commands of an earlier lock whose owning module was carried forward
/// unchanged; a command of a changed module is dropped and reappears only
/// if the freshly resolved manifest declares it again.
pub open spec fn kept_commands(
    cmds: Map<Seq<char>, LockfileCommandV>,
    kept: Map<Seq<char>, LockfileModuleV>,
) -> Map<Seq<char>, LockfileCommandV> {
    Map::new(
        |k: Seq<char>| cmds.contains_key(k) && kept.contains_key(cmds[k].module),
        |k: Seq<char>| cmds[k],
    )
}

/// The views of a vector of (name, version) string pairs.
pub open spec fn pairs_view(v: Seq<(String, String)>) -> Seq<(Seq<char>, Seq<char>)> {
    v.map(|i: int, p: (String, String)| (p.0@, p.1@))
}

/// Importing dependencies one more at the end is importing the last one
/// into the state the earlier ones built.
pub proof fn lemma_import_deps_push(st: LockfileV, ds: Seq<DependencyV>, d: DependencyV)
    ensures
        import_deps(st, ds.push(d)) == import_dep(import_deps(st, ds), d),
    decreases ds.len(),
{
    if ds.len() == 0 {
        assert(ds.push(d).drop_first() =~= Seq::<DependencyV>::empty());
        assert(ds.push(d).first() == d);
        assert(import_deps(st, ds.push(d))
            == import_deps(import_dep(st, d), Seq::<DependencyV>::empty()));
    } else {
        lemma_import_deps_push(import_dep(st, ds.first()), ds.drop_first(), d);
        assert(ds.push(d).drop_first() =~= ds.drop_first().push(d));
        assert(ds.push(d).first() == ds.first());
        assert(import_deps(st, ds.push(d))
            == import_deps(import_dep(st, ds.first()), ds.drop_first().push(d)));
        assert(import_deps(st, ds) == import_deps(import_dep(st, ds.first()), ds.drop_first()));
    }
}

} // verus!
