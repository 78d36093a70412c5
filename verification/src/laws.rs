//! Laws of reconciliation, stated and proved over the model.

use vstd::prelude::*;
use crate::manifest::{ManifestCommandV, ManifestV, deps_of};
use crate::model::{
    LockfileV, changed_of, commands_with, empty_state, import_dep, import_deps, import_root,
    kept_commands, unchanged_of,
};
use crate::records::{LockfileCommandV, LockfileModuleV};
use crate::resolver::DependencyV;
use crate::strkey::key_of;

verus! {

/// A manifest that declares no dependencies and no owned module builds an
/// empty lock state: no modules, no commands, whatever the resolver would
/// have answered.
pub proof fn lemma_bare_manifest_builds_empty_lock(m: ManifestV, rs: Seq<DependencyV>)
    requires
        deps_of(m).len() == 0,
        rs.len() == 0,
        m.module is None,
    ensures
        import_root(import_deps(empty_state(), rs), m) == empty_state(),
{
    assert(import_deps(empty_state(), rs) == empty_state());
}

/// No pair whose `"<name> <constraint>"` key the existing lock holds is
/// ever scheduled for re-resolution.
proof fn lemma_changed_excludes_present_keys(
    deps: Seq<(Seq<char>, Seq<char>)>,
    existing: Map<Seq<char>, LockfileModuleV>,
    p: (Seq<char>, Seq<char>),
)
    requires
        existing.contains_key(key_of(p.0, p.1)),
    ensures
        !changed_of(deps, existing).contains(p),
    decreases deps.len(),
{
    if deps.len() == 0 {
        assert(changed_of(deps, existing).len() == 0);
    } else {
        lemma_changed_excludes_present_keys(deps.drop_last(), existing, p);
        let rest = changed_of(deps.drop_last(), existing);
        if !existing.contains_key(key_of(deps.last().0, deps.last().1)) {
            assert(deps.last() != p);
            if changed_of(deps, existing).contains(p) {
                let idx = choose|idx: int|
                    0 <= idx < rest.push(deps.last()).len() && rest.push(deps.last())[idx] == p;
                if idx < rest.len() {
                    assert(rest[idx] == p);
                } else {
                    assert(rest.push(deps.last())[idx] == deps.last());
                }
            }
        }
    }
}

/// A declared dependency whose literal key is present in the existing lock
/// is carried over byte-identically into the unchanged part, and is never
/// scheduled for re-resolution: the lock is sticky on the constraint
/// string.
pub proof fn lemma_matching_dependency_is_reused(
    deps: Seq<(Seq<char>, Seq<char>)>,
    existing: Map<Seq<char>, LockfileModuleV>,
    i: int,
)
    requires
        0 <= i < deps.len(),
        existing.contains_key(key_of(deps[i].0, deps[i].1)),
    ensures
        unchanged_of(deps, existing).contains_key(key_of(deps[i].0, deps[i].1)),
        unchanged_of(deps, existing)[key_of(deps[i].0, deps[i].1)] == existing[key_of(
            deps[i].0,
            deps[i].1,
        )],
        !changed_of(deps, existing).contains(deps[i]),
    decreases deps.len(),
{
    lemma_changed_excludes_present_keys(deps, existing, deps[i]);
    if i == deps.len() - 1 {
    } else {
        lemma_matching_dependency_is_reused(deps.drop_last(), existing, i);
        assert(deps.drop_last()[i] == deps[i]);
    }
}

/// Every key of the unchanged part comes from the existing lock.
proof fn lemma_unchanged_subset_of_existing(
    deps: Seq<(Seq<char>, Seq<char>)>,
    existing: Map<Seq<char>, LockfileModuleV>,
    k: Seq<char>,
)
    ensures
        unchanged_of(deps, existing).contains_key(k) ==> existing.contains_key(k),
    decreases deps.len(),
{
    if deps.len() == 0 {
    } else {
        lemma_unchanged_subset_of_existing(deps.drop_last(), existing, k);
    }
}

/// A declared dependency whose literal key the existing lock does not hold
/// — a fresh dependency, or one whose constraint string changed by as
/// little as a version bump — is scheduled for re-resolution and carried
/// over by nothing.
pub proof fn lemma_new_constraint_is_rescheduled(
    deps: Seq<(Seq<char>, Seq<char>)>,
    existing: Map<Seq<char>, LockfileModuleV>,
    i: int,
)
    requires
        0 <= i < deps.len(),
        !existing.contains_key(key_of(deps[i].0, deps[i].1)),
    ensures
        changed_of(deps, existing).contains(deps[i]),
        !unchanged_of(deps, existing).contains_key(key_of(deps[i].0, deps[i].1)),
    decreases deps.len(),
{
    lemma_unchanged_subset_of_existing(deps, existing, key_of(deps[i].0, deps[i].1));
    if i == deps.len() - 1 {
        let rest = changed_of(deps.drop_last(), existing);
        assert(rest.push(deps.last())[rest.len() as int] == deps[i]);
    } else {
        lemma_new_constraint_is_rescheduled(deps.drop_last(), existing, i);
        assert(deps.drop_last()[i] == deps[i]);
        let rest = changed_of(deps.drop_last(), existing);
        let idx = choose|idx: int| 0 <= idx < rest.len() && rest[idx] == deps[i];
        if !existing.contains_key(key_of(deps.last().0, deps.last().1)) {
            assert(rest.push(deps.last())[idx] == deps[i]);
        }
    }
}

/// True when the resolved dependency contributes a command of this name:
/// only a manifest that declares a module contributes its commands.
pub open spec fn dep_declares_command(d: DependencyV, c: Seq<char>) -> bool {
    &&& d.manifest.module is Some
    &&& match d.manifest.command {
        Some(cs) => exists|j: int| 0 <= j < cs.len() && (#[trigger] cs[j]).name == c,
        None => false,
    }
}

/// True when the root manifest contributes a command of this name.
pub open spec fn root_declares_command(m: ManifestV, c: Seq<char>) -> bool {
    match (m.command, m.module) {
        (Some(cs), Some(_)) => exists|j: int| 0 <= j < cs.len() && (#[trigger] cs[j]).name == c,
        _ => false,
    }
}

proof fn lemma_commands_with_frame(
    cs: Seq<ManifestCommandV>,
    key: Seq<char>,
    base: Map<Seq<char>, LockfileCommandV>,
    c: Seq<char>,
)
    requires
        forall|j: int| 0 <= j < cs.len() ==> (#[trigger] cs[j]).name != c,
    ensures
        commands_with(cs, key, base).contains_key(c) == base.contains_key(c),
    decreases cs.len(),
{
    if cs.len() == 0 {
    } else {
        assert(cs.first() == cs[0]);
        assert(forall|j: int|
            0 <= j < cs.drop_first().len() ==> (#[trigger] cs.drop_first()[j]).name != c);
        lemma_commands_with_frame(
            cs.drop_first(),
            key,
            base.insert(cs.first().name, LockfileCommandV { module: key }),
            c,
        );
    }
}

proof fn lemma_import_deps_frame(st: LockfileV, rs: Seq<DependencyV>, c: Seq<char>)
    requires
        forall|i: int| 0 <= i < rs.len() ==> !dep_declares_command(#[trigger] rs[i], c),
    ensures
        import_deps(st, rs).commands.contains_key(c) == st.commands.contains_key(c),
    decreases rs.len(),
{
    if rs.len() == 0 {
    } else {
        let d = rs.first();
        assert(d == rs[0]);
        let st2 = import_dep(st, d);
        match d.manifest.module {
            None => {},
            Some(m) => {
                match d.manifest.command {
                    None => {},
                    Some(cs) => {
                        assert(forall|j: int| 0 <= j < cs.len() ==> (#[trigger] cs[j]).name != c);
                        lemma_commands_with_frame(cs, key_of(m.name, m.version), st.commands, c);
                    },
                }
            },
        }
        assert(st2.commands.contains_key(c) == st.commands.contains_key(c));
        assert(forall|i: int|
            0 <= i < rs.drop_first().len() ==> !dep_declares_command(
                #[trigger] rs.drop_first()[i],
                c,
            ));
        lemma_import_deps_frame(st2, rs.drop_first(), c);
    }
}

/// A command of the earlier lock whose owning module is not carried forward
/// unchanged is absent from the reconciled lock state, unless a freshly
/// resolved manifest declares a command of that name again or the root
/// manifest does.
pub proof fn lemma_changed_commands_are_dropped(
    ex: LockfileV,
    m: ManifestV,
    rs: Seq<DependencyV>,
    c: Seq<char>,
)
    requires
        ex.commands.contains_key(c) ==> !unchanged_of(deps_of(m), ex.modules).contains_key(
            ex.commands[c].module,
        ),
        forall|i: int| 0 <= i < rs.len() ==> !dep_declares_command(#[trigger] rs[i], c),
        !root_declares_command(m, c),
    ensures
        ({
            let kept = unchanged_of(deps_of(m), ex.modules);
            let seeded = LockfileV { modules: kept, commands: kept_commands(ex.commands, kept) };
            !import_root(import_deps(seeded, rs), m).commands.contains_key(c)
        }),
{
    let kept = unchanged_of(deps_of(m), ex.modules);
    let seeded = LockfileV { modules: kept, commands: kept_commands(ex.commands, kept) };
    assert(!seeded.commands.contains_key(c));
    lemma_import_deps_frame(seeded, rs, c);
    let st = import_deps(seeded, rs);
    match (m.command, m.module) {
        (Some(cs), Some(md)) => {
            assert(forall|j: int| 0 <= j < cs.len() ==> (#[trigger] cs[j]).name != c);
            lemma_commands_with_frame(cs, key_of(md.name, md.version), st.commands, c);
        },
        _ => {},
    }
}

/// A manifest with no owned module contributes no commands, even if it
/// declares some: neither as the root manifest nor as a resolved
/// dependency.
pub proof fn lemma_no_module_means_no_contribution(st: LockfileV, m: ManifestV, d: DependencyV)
    requires
        m.module is None,
        d.manifest.module is None,
    ensures
        import_root(st, m) == st,
        import_dep(st, d) == st,
{
}

} // verus!
