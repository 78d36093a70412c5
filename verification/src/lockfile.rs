//! The lock state and its construction.
//!
//! A `Lockfile` is the fully resolved, deterministic snapshot of all
//! modules and commands of a project.  It is produced either fresh from a
//! manifest alone, every declared dependency resolved anew, or
//! incrementally against an earlier lock, re-resolving only the declared
//! dependencies whose literal `"<name> <constraint>"` key the earlier lock
//! does not hold.

use vstd::prelude::*;
use crate::manifest::{Manifest, ManifestCommand, deps_of};
use crate::model::{
    LockfileV, changed_of, commands_with, empty_state, import_dep, import_deps, import_root,
    kept_commands, pairs_view, unchanged_of, lemma_import_deps_push,
};
use crate::records::{
    LockfileCommand, LockfileModule, command_matches, module_matches,
};
use crate::resolver::{Dependency, DependencyResolver, DependencyV, ResolveError, resolutions_of};
use crate::strkey::make_key;
use crate::strmap::StrMap;

verus! {

/// A lookup miss, carrying the requested identifier.
#[derive(Debug)]
pub enum LockfileError {
    CommandNotFound(String),
    ModuleNotFound(String),
}

/// The lock state: resolved modules keyed by `"<name> <version>"`, and
/// commands keyed by command name, each bound to the key of its owning
/// module.
pub struct Lockfile {
    pub modules: StrMap<LockfileModule>,
    pub commands: StrMap<LockfileCommand>,
}

impl View for Lockfile {
    type V = LockfileV;

    open spec fn view(&self) -> LockfileV {
        LockfileV { modules: self.modules@, commands: self.commands@ }
    }
}

impl Lockfile {
    /// Well-formed: both underlying maps hold each key once.
    pub open spec fn wf(&self) -> bool {
        self.modules.wf() && self.commands.wf()
    }

    /// Exact-key lookup of a command; a miss is a `CommandNotFound` error
    /// carrying exactly the requested name.
    pub fn get_command(&self, command_name: &str) -> (r: Result<&LockfileCommand, LockfileError>)
        requires
            self.wf(),
        ensures
            self@.commands.contains_key(command_name@)
                ==> (r matches Ok(c) && c@ == self@.commands[command_name@]),
            !self@.commands.contains_key(command_name@)
                ==> (r matches Err(e) && e matches LockfileError::CommandNotFound(n) && n@
                    == command_name@),
    {
        match self.commands.get(command_name) {
            Some(c) => Ok(c),
            None => Err(LockfileError::CommandNotFound(command_name.to_owned())),
        }
    }

    /// Exact-key lookup of a module by its lock key; a miss is a
    /// `ModuleNotFound` error carrying exactly the requested key.
    pub fn get_module(&self, module_name: &str) -> (r: Result<&LockfileModule, LockfileError>)
        requires
            self.wf(),
        ensures
            self@.modules.contains_key(module_name@)
                ==> (r matches Ok(m) && m@ == self@.modules[module_name@]),
            !self@.modules.contains_key(module_name@)
                ==> (r matches Err(e) && e matches LockfileError::ModuleNotFound(n) && n@
                    == module_name@),
    {
        match self.modules.get(module_name) {
            Some(m) => Ok(m),
            None => Err(LockfileError::ModuleNotFound(module_name.to_owned())),
        }
    }

    /// Constructs a lock state from a manifest alone, as when no earlier
    /// lock exists: every declared dependency counts as changed and is
    /// resolved, each result is imported in declared order, and the root
    /// manifest's own commands are imported last.  A resolution failure
    /// aborts the whole construction: no partial lock state is returned,
    /// and the error names a declared dependency.
    pub fn new_from_manifest<D: DependencyResolver>(
        manifest: &Manifest,
        dependency_resolver: &D,
    ) -> (r: Result<Self, ResolveError>)
        ensures
            r matches Ok(lf) ==> ({
                let ds = deps_of(manifest@);
                &&& forall|i: int| 0 <= i < ds.len()
                    ==> (#[trigger] dependency_resolver.resolve_spec(ds[i].0, ds[i].1)) is Some
                &&& lf@ == import_root(
                    import_deps(empty_state(), resolutions_of(dependency_resolver, ds)),
                    manifest@,
                )
                &&& lf.wf()
            }),
            r matches Err(e) ==> deps_of(manifest@).contains((e.name@, e.version@)),
    {
        let mut lockfile_modules: StrMap<LockfileModule> = StrMap::new();
        let mut lockfile_commands: StrMap<LockfileCommand> = StrMap::new();
        let ghost ds = deps_of(manifest@);
        let mut manifests: Vec<Dependency> = Vec::new();
        match &manifest.dependencies {
            Some(dependencies) => {
                let n = dependencies.len();
                let mut i: usize = 0;
                while i < n
                    invariant
                        n == dependencies.len(),
                        i <= n,
                        ds == deps_of(manifest@),
                        ds == dependencies@.map(|j: int, d: (String, String)| (d.0@, d.1@)),
                        manifests@.len() == i,
                        forall|j: int| 0 <= j < i ==> {
                            &&& (#[trigger] dependency_resolver.resolve_spec(ds[j].0, ds[j].1))
                                is Some
                            &&& dependency_resolver.resolve_spec(ds[j].0, ds[j].1)->Some_0
                                == manifests@[j]@
                        },
                    decreases n - i,
                {
                    let d = &dependencies[i];
                    let dependency_manifest = match dependency_resolver.resolve(
                        d.0.as_str(),
                        d.1.as_str(),
                    ) {
                        Ok(dep) => dep,
                        Err(e) => {
                            proof {
                                assert(ds[i as int] == (e.name@, e.version@));
                            }
                            return Err(e);
                        },
                    };
                    manifests.push(dependency_manifest);
                    i += 1;
                }
            },
            None => {},
        }
        // import every resolved dependency, in declared order
        let ghost rs = manifests@.map(|j: int, dep: Dependency| dep@);
        let n = manifests.len();
        let mut i: usize = 0;
        proof {
            assert(rs.take(0) =~= Seq::<DependencyV>::empty());
        }
        while i < n
            invariant
                n == manifests.len(),
                i <= n,
                rs == manifests@.map(|j: int, dep: Dependency| dep@),
                lockfile_modules.wf(),
                lockfile_commands.wf(),
                (LockfileV { modules: lockfile_modules@, commands: lockfile_commands@ })
                    == import_deps(empty_state(), rs.take(i as int)),
            decreases n - i,
        {
            proof {
                assert(rs.take(i as int + 1) =~= rs.take(i as int).push(rs[i as int]));
                lemma_import_deps_push(empty_state(), rs.take(i as int), rs[i as int]);
            }
            get_lockfile_data_from_manifest(
                &manifests[i],
                &mut lockfile_modules,
                &mut lockfile_commands,
            );
            i += 1;
        }
        proof {
            assert(rs.take(n as int) =~= rs);
            assert(rs =~= resolutions_of(dependency_resolver, ds));
        }
        // handle this manifest's commands
        get_commands_from_manifest(manifest, &mut lockfile_commands);
        let new_lockfile = Lockfile { modules: lockfile_modules, commands: lockfile_commands };
        Ok(new_lockfile)
    }

    /// Reconciles a manifest against an earlier lock state.  Declared
    /// dependencies whose literal key the earlier lock holds are carried
    /// forward unchanged, together with the commands of those unchanged
    /// modules; every other declared dependency is resolved anew and
    /// imported; the root manifest's own commands come last, shadowing any
    /// dependency command of the same name.  A resolution failure aborts
    /// the whole construction, and the error names a changed dependency.
    pub fn new_from_manifest_and_lockfile<D: DependencyResolver>(
        manifest: &Manifest,
        existing_lockfile: Lockfile,
        dependency_resolver: &D,
    ) -> (r: Result<Self, ResolveError>)
        requires
            existing_lockfile.wf(),
        ensures
            r matches Ok(lf) ==> ({
                let ds = deps_of(manifest@);
                let ch = changed_of(ds, existing_lockfile@.modules);
                let kept = unchanged_of(ds, existing_lockfile@.modules);
                let seeded = LockfileV {
                    modules: kept,
                    commands: kept_commands(existing_lockfile@.commands, kept),
                };
                &&& forall|i: int| 0 <= i < ch.len()
                    ==> (#[trigger] dependency_resolver.resolve_spec(ch[i].0, ch[i].1)) is Some
                &&& lf@ == import_root(
                    import_deps(seeded, resolutions_of(dependency_resolver, ch)),
                    manifest@,
                )
                &&& lf.wf()
            }),
            r matches Err(e) ==> changed_of(deps_of(manifest@), existing_lockfile@.modules)
                .contains((e.name@, e.version@)),
    {
        // split the declared dependencies into changed and unchanged
        let (changed_dependencies, unchanged_lockfile_modules) = resolve_changes(
            manifest,
            &existing_lockfile.modules,
        );
        let ghost ds = deps_of(manifest@);
        let ghost kept = unchanged_lockfile_modules@;
        let ghost ex_cmds = existing_lockfile.commands@;
        let ghost ck = existing_lockfile.commands.kseq();
        // carry over the commands whose owning module did not change
        let mut lockfile_commands: StrMap<LockfileCommand> = StrMap::new();
        let ncmd = existing_lockfile.commands.len();
        let mut i: usize = 0;
        while i < ncmd
            invariant
                ncmd == ck.len(),
                i <= ncmd,
                ck == existing_lockfile.commands.kseq(),
                existing_lockfile.commands.wf(),
                unchanged_lockfile_modules.wf(),
                kept == unchanged_lockfile_modules@,
                ex_cmds == existing_lockfile.commands@,
                lockfile_commands.wf(),
                forall|k: Seq<char>| #[trigger] lockfile_commands@.contains_key(k) ==> {
                    &&& ex_cmds.contains_key(k)
                    &&& lockfile_commands@[k] == ex_cmds[k]
                    &&& kept.contains_key(ex_cmds[k].module)
                },
                forall|t: int|
                    0 <= t < i && kept.contains_key((#[trigger] ck[t]).1.module)
                        ==> lockfile_commands@.contains_key(ck[t].0),
            decreases ncmd - i,
        {
            let e = existing_lockfile.commands.entry(i);
            proof {
                existing_lockfile.commands.lemma_entries_view();
            }
            if unchanged_lockfile_modules.contains_key(e.1.module.as_str()) {
                lockfile_commands.insert(e.0.clone(), e.1.clone());
            }
            i += 1;
        }
        proof {
            existing_lockfile.commands.lemma_entries_view();
            assert forall|k: Seq<char>| #[trigger] kept_commands(ex_cmds, kept).contains_key(k)
                implies lockfile_commands@.contains_key(k) by {
                let t = choose|t: int| 0 <= t < ck.len() && ck[t].0 == k;
                assert(ck[t].1 == ex_cmds[k]);
            }
            assert(lockfile_commands@ =~= kept_commands(ex_cmds, kept));
        }
        // seed the module map with the unchanged modules
        let mut lockfile_modules = unchanged_lockfile_modules;
        let ghost seeded = LockfileV { modules: kept, commands: kept_commands(ex_cmds, kept) };
        // resolve every changed dependency and import the result
        let ghost ch = pairs_view(changed_dependencies@);
        let ghost rs = resolutions_of(dependency_resolver, ch);
        let nch = changed_dependencies.len();
        let mut i: usize = 0;
        proof {
            assert(rs.take(0) =~= Seq::<DependencyV>::empty());
        }
        while i < nch
            invariant
                nch == changed_dependencies.len(),
                i <= nch,
                ch == pairs_view(changed_dependencies@),
                ch == changed_of(ds, existing_lockfile@.modules),
                ds == deps_of(manifest@),
                rs == resolutions_of(dependency_resolver, ch),
                seeded == (LockfileV {
                    modules: unchanged_of(ds, existing_lockfile@.modules),
                    commands: kept_commands(
                        existing_lockfile@.commands,
                        unchanged_of(ds, existing_lockfile@.modules),
                    ),
                }),
                lockfile_modules.wf(),
                lockfile_commands.wf(),
                forall|j: int| 0 <= j < i
                    ==> (#[trigger] dependency_resolver.resolve_spec(ch[j].0, ch[j].1)) is Some,
                (LockfileV { modules: lockfile_modules@, commands: lockfile_commands@ })
                    == import_deps(seeded, rs.take(i as int)),
            decreases nch - i,
        {
            let d = &changed_dependencies[i];
            let dependency_manifest = match dependency_resolver.resolve(
                d.0.as_str(),
                d.1.as_str(),
            ) {
                Ok(dep) => dep,
                Err(e) => {
                    proof {
                        assert(ch[i as int] == (e.name@, e.version@));
                        assert(ch.contains((e.name@, e.version@)));
                    }
                    return Err(e);
                },
            };
            proof {
                assert(rs[i as int] == dependency_manifest@);
                assert(rs.take(i as int + 1) =~= rs.take(i as int).push(rs[i as int]));
                lemma_import_deps_push(seeded, rs.take(i as int), rs[i as int]);
            }
            get_lockfile_data_from_manifest(
                &dependency_manifest,
                &mut lockfile_modules,
                &mut lockfile_commands,
            );
            i += 1;
        }
        proof {
            assert(rs.take(nch as int) =~= rs);
        }
        // handle this manifest's commands
        get_commands_from_manifest(manifest, &mut lockfile_commands);
        let new_lockfile = Lockfile { modules: lockfile_modules, commands: lockfile_commands };
        Ok(new_lockfile)
    }

    /// True exactly when the two lock states hold the same modules and the
    /// same commands; the order in which entries were inserted does not
    /// matter.
    pub fn equals(&self, other: &Lockfile) -> (r: bool)
        requires
            self.wf(),
            other.wf(),
        ensures
            r == (self@ == other@),
    {
        let r = module_maps_eq(&self.modules, &other.modules) && command_maps_eq(
            &self.commands,
            &other.commands,
        );
        proof {
            if self@ == other@ {
                assert(self@.modules == other@.modules);
                assert(self@.commands == other@.commands);
            }
        }
        r
    }
}

/// True exactly when two module maps hold the same keys with the same data.
fn module_maps_eq(a: &StrMap<LockfileModule>, b: &StrMap<LockfileModule>) -> (r: bool)
    requires
        a.wf(),
        b.wf(),
    ensures
        r == (a@ == b@),
{
    // every entry of a must be present in b with the same data
    let n = a.len();
    let mut i: usize = 0;
    while i < n
        invariant
            n == a.kseq().len(),
            i <= n,
            a.wf(),
            b.wf(),
            forall|t: int| 0 <= t < i ==> {
                &&& b@.contains_key((#[trigger] a.kseq()[t]).0)
                &&& b@[a.kseq()[t].0] == a.kseq()[t].1
            },
        decreases n - i,
    {
        let e = a.entry(i);
        proof {
            a.lemma_entries_view();
        }
        match b.get(e.0.as_str()) {
            Some(v) => {
                if !module_matches(&e.1, v) {
                    proof {
                        assert(a@ != b@) by {
                            if a@ == b@ {
                                assert(a@[a.kseq()[i as int].0] == b@[a.kseq()[i as int].0]);
                            }
                        }
                    }
                    return false;
                }
            },
            None => {
                proof {
                    assert(a@ != b@) by {
                        if a@ == b@ {
                            assert(b@.contains_key(a.kseq()[i as int].0));
                        }
                    }
                }
                return false;
            },
        }
        i += 1;
    }
    // every key of b must be present in a
    let m = b.len();
    let mut j: usize = 0;
    while j < m
        invariant
            m == b.kseq().len(),
            j <= m,
            a.wf(),
            b.wf(),
            forall|t: int| 0 <= t < a.kseq().len() ==> {
                &&& b@.contains_key((#[trigger] a.kseq()[t]).0)
                &&& b@[a.kseq()[t].0] == a.kseq()[t].1
            },
            forall|t: int| 0 <= t < j ==> a@.contains_key((#[trigger] b.kseq()[t]).0),
        decreases m - j,
    {
        let e = b.entry(j);
        proof {
            b.lemma_entries_view();
        }
        if !a.contains_key(e.0.as_str()) {
            proof {
                assert(a@ != b@) by {
                    if a@ == b@ {
                        assert(a@.contains_key(b.kseq()[j as int].0));
                    }
                }
            }
            return false;
        }
        j += 1;
    }
    proof {
        a.lemma_entries_view();
        b.lemma_entries_view();
        assert forall|k: Seq<char>| #[trigger] a@.contains_key(k)
            implies b@.contains_key(k) && a@[k] == b@[k] by {
            let t = choose|t: int| 0 <= t < a.kseq().len() && (#[trigger] a.kseq()[t]).0 == k;
            assert(a@[k] == a.kseq()[t].1);
        }
        assert forall|k: Seq<char>| #[trigger] b@.contains_key(k)
            implies a@.contains_key(k) by {
            let t = choose|t: int| 0 <= t < b.kseq().len() && (#[trigger] b.kseq()[t]).0 == k;
        }
        assert(a@ =~= b@);
    }
    true
}

/// True exactly when two command maps hold the same names bound to the same
/// module keys.
fn command_maps_eq(a: &StrMap<LockfileCommand>, b: &StrMap<LockfileCommand>) -> (r: bool)
    requires
        a.wf(),
        b.wf(),
    ensures
        r == (a@ == b@),
{
    // every entry of a must be present in b with the same binding
    let n = a.len();
    let mut i: usize = 0;
    while i < n
        invariant
            n == a.kseq().len(),
            i <= n,
            a.wf(),
            b.wf(),
            forall|t: int| 0 <= t < i ==> {
                &&& b@.contains_key((#[trigger] a.kseq()[t]).0)
                &&& b@[a.kseq()[t].0] == a.kseq()[t].1
            },
        decreases n - i,
    {
        let e = a.entry(i);
        proof {
            a.lemma_entries_view();
        }
        match b.get(e.0.as_str()) {
            Some(v) => {
                if !command_matches(&e.1, v) {
                    proof {
                        assert(a@ != b@) by {
                            if a@ == b@ {
                                assert(a@[a.kseq()[i as int].0] == b@[a.kseq()[i as int].0]);
                            }
                        }
                    }
                    return false;
                }
            },
            None => {
                proof {
                    assert(a@ != b@) by {
                        if a@ == b@ {
                            assert(b@.contains_key(a.kseq()[i as int].0));
                        }
                    }
                }
                return false;
            },
        }
        i += 1;
    }
    // every name of b must be present in a
    let m = b.len();
    let mut j: usize = 0;
    while j < m
        invariant
            m == b.kseq().len(),
            j <= m,
            a.wf(),
            b.wf(),
            forall|t: int| 0 <= t < a.kseq().len() ==> {
                &&& b@.contains_key((#[trigger] a.kseq()[t]).0)
                &&& b@[a.kseq()[t].0] == a.kseq()[t].1
            },
            forall|t: int| 0 <= t < j ==> a@.contains_key((#[trigger] b.kseq()[t]).0),
        decreases m - j,
    {
        let e = b.entry(j);
        proof {
            b.lemma_entries_view();
        }
        if !a.contains_key(e.0.as_str()) {
            proof {
                assert(a@ != b@) by {
                    if a@ == b@ {
                        assert(a@.contains_key(b.kseq()[j as int].0));
                    }
                }
            }
            return false;
        }
        j += 1;
    }
    proof {
        a.lemma_entries_view();
        b.lemma_entries_view();
        assert forall|k: Seq<char>| #[trigger] a@.contains_key(k)
            implies b@.contains_key(k) && a@[k] == b@[k] by {
            let t = choose|t: int| 0 <= t < a.kseq().len() && (#[trigger] a.kseq()[t]).0 == k;
            assert(a@[k] == a.kseq()[t].1);
        }
        assert forall|k: Seq<char>| #[trigger] b@.contains_key(k)
            implies a@.contains_key(k) by {
            let t = choose|t: int| 0 <= t < b.kseq().len() && (#[trigger] b.kseq()[t]).0 == k;
        }
        assert(a@ =~= b@);
    }
    true
}

/// Binds each declared command, in order, to the module under `key`.
fn insert_commands(
    commands: &Vec<ManifestCommand>,
    key: &String,
    lockfile_commands: &mut StrMap<LockfileCommand>,
)
    requires
        old(lockfile_commands).wf(),
    ensures
        final(lockfile_commands).wf(),
        final(lockfile_commands)@ == commands_with(
            commands@.map(|i: int, c: ManifestCommand| c@),
            key@,
            old(lockfile_commands)@,
        ),
{
    let ghost cs = commands@.map(|i: int, c: ManifestCommand| c@);
    let ghost target = commands_with(cs, key@, lockfile_commands@);
    let n = commands.len();
    let mut i: usize = 0;
    proof {
        assert(cs.skip(0) =~= cs);
    }
    while i < n
        invariant
            n == commands.len(),
            i <= n,
            cs == commands@.map(|i: int, c: ManifestCommand| c@),
            lockfile_commands.wf(),
            commands_with(cs.skip(i as int), key@, lockfile_commands@) == target,
        decreases n - i,
    {
        let command = &commands[i];
        let lockfile_command = LockfileCommand::from_command(key.as_str());
        proof {
            assert(cs.skip(i as int).first() == cs[i as int]);
            assert(cs.skip(i as int).drop_first() =~= cs.skip(i as int + 1));
        }
        lockfile_commands.insert(command.name.clone(), lockfile_command);
        i += 1;
    }
    proof {
        assert(cs.skip(n as int) =~= Seq::<crate::manifest::ManifestCommandV>::empty());
    }
}

/// Imports one resolved dependency into the accumulating lock state.  A
/// dependency whose manifest declares no module contributes nothing, and
/// any commands it declares are dropped: a command needs an owning module.
/// Importing the same module key twice overwrites (last write wins), and a
/// later same-named command likewise overwrites an earlier one.
pub fn get_lockfile_data_from_manifest(
    dependency: &Dependency,
    lockfile_modules: &mut StrMap<LockfileModule>,
    lockfile_commands: &mut StrMap<LockfileCommand>,
)
    requires
        old(lockfile_modules).wf(),
        old(lockfile_commands).wf(),
    ensures
        final(lockfile_modules).wf(),
        final(lockfile_commands).wf(),
        (LockfileV { modules: final(lockfile_modules)@, commands: final(lockfile_commands)@ })
            == import_dep(
            LockfileV { modules: old(lockfile_modules)@, commands: old(lockfile_commands)@ },
            dependency@,
        ),
{
    let manifest = &dependency.manifest;
    let download_url = dependency.download_url.as_str();
    match &manifest.module {
        Some(module) => {
            let lockfile_module = LockfileModule::from_module(module, download_url);
            let key = make_key(lockfile_module.name.as_str(), lockfile_module.version.as_str());
            lockfile_modules.insert(key.clone(), lockfile_module);
            // if there is a module, then take the commands, if any exist
            match &manifest.command {
                Some(commands) => {
                    insert_commands(commands, &key, lockfile_commands);
                },
                None => {},
            }
        },
        None => {},
    }
}

/// Imports the root manifest's own commands into the accumulating command
/// map.  The root contributes commands only if it declares both an owned
/// module and commands: a project with no owned module cannot own commands,
/// even if it declares some.
pub fn get_commands_from_manifest(
    manifest: &Manifest,
    lockfile_commands: &mut StrMap<LockfileCommand>,
)
    requires
        old(lockfile_commands).wf(),
    ensures
        final(lockfile_commands).wf(),
        final(lockfile_commands)@ == import_root(
            LockfileV { modules: Map::empty(), commands: old(lockfile_commands)@ },
            manifest@,
        ).commands,
{
    match (&manifest.command, &manifest.module) {
        (Some(commands), Some(module)) => {
            let module_string = make_key(module.name.as_str(), module.version.as_str());
            insert_commands(commands, &module_string, lockfile_commands);
        },
        _ => {},  // if there is no module, then there are no commands
    }
}

/// Splits the manifest's declared dependencies against an existing module
/// map: a dependency whose literal `"<name> <constraint>"` key is present
/// is carried over unchanged (no resolution for it); every other declared
/// dependency is returned, in declared order, as changed and must be
/// re-resolved.  The comparison is on the constraint string verbatim: a
/// recorded resolution stays pinned until the declared string itself
/// changes.
pub fn resolve_changes(
    manifest: &Manifest,
    lockfile_modules: &StrMap<LockfileModule>,
) -> (r: (Vec<(String, String)>, StrMap<LockfileModule>))
    requires
        lockfile_modules.wf(),
    ensures
        pairs_view(r.0@) == changed_of(deps_of(manifest@), lockfile_modules@),
        r.1@ == unchanged_of(deps_of(manifest@), lockfile_modules@),
        r.1.wf(),
{
    let mut changes: Vec<(String, String)> = Vec::new();
    let mut not_changed: StrMap<LockfileModule> = StrMap::new();
    let ghost ds = deps_of(manifest@);
    match &manifest.dependencies {
        Some(dependencies) => {
            let n = dependencies.len();
            let mut i: usize = 0;
            proof {
                assert(ds.take(0) =~= Seq::<(Seq<char>, Seq<char>)>::empty());
                assert(pairs_view(changes@) =~= Seq::<(Seq<char>, Seq<char>)>::empty());
            }
            while i < n
                invariant
                    n == dependencies.len(),
                    i <= n,
                    ds == deps_of(manifest@),
                    ds == dependencies@.map(|j: int, d: (String, String)| (d.0@, d.1@)),
                    lockfile_modules.wf(),
                    not_changed.wf(),
                    pairs_view(changes@) == changed_of(ds.take(i as int), lockfile_modules@),
                    not_changed@ == unchanged_of(ds.take(i as int), lockfile_modules@),
                decreases n - i,
            {
                let d = &dependencies[i];
                let key = make_key(d.0.as_str(), d.1.as_str());
                proof {
                    assert(ds.take(i as int + 1).drop_last() =~= ds.take(i as int));
                    assert(ds.take(i as int + 1).last() == ds[i as int]);
                }
                match lockfile_modules.get(key.as_str()) {
                    Some(lockfile_module) => {
                        let m = lockfile_module.clone();
                        not_changed.insert(key, m);
                    },
                    None => {
                        changes.push((d.0.clone(), d.1.clone()));
                        proof {
                            assert(pairs_view(changes@) =~= changed_of(
                                ds.take(i as int + 1),
                                lockfile_modules@,
                            ));
                        }
                    },
                }
                i += 1;
            }
            proof {
                assert(ds.take(n as int) =~= ds);
            }
        },
        None => {
            proof {
                assert(pairs_view(changes@) =~= changed_of(ds, lockfile_modules@));
            }
        },
    }
    (changes, not_changed)
}

} // verus!
