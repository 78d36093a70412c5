use lockfile::lockfile::{Lockfile, LockfileError, get_commands_from_manifest,
    get_lockfile_data_from_manifest, resolve_changes};
use lockfile::manifest::{Manifest, ManifestCommand, ManifestModule};
use lockfile::records::{LockfileCommand, LockfileModule};
use lockfile::resolver::{Dependency, TestResolver};
use lockfile::strmap::StrMap;

fn lock_module(name: &str, version: &str, source: &str, entry: &str) -> LockfileModule {
    LockfileModule {
        name: name.to_string(),
        version: version.to_string(),
        source: source.to_string(),
        resolved: String::new(),
        integrity: String::new(),
        hash: String::new(),
        abi: "None".to_string(),
        entry: entry.to_string(),
    }
}

fn manifest_module(name: &str, version: &str, entry: &str, description: &str) -> ManifestModule {
    ManifestModule {
        name: name.to_string(),
        version: version.to_string(),
        entry: entry.to_string(),
        description: description.to_string(),
        abi: "None".to_string(),
    }
}

fn command(name: &str) -> ManifestCommand {
    ManifestCommand { name: name.to_string() }
}

fn string_pair(a: &str, b: &str) -> (String, String) {
    (a.to_string(), b.to_string())
}

#[test]
fn get_commands() {
    let mut modules: StrMap<LockfileModule> = StrMap::new();
    modules.insert("foo 1.0.0".to_string(), lock_module("foo", "1.0.0", "", "target.wasm"));
    modules.insert("bar 3.0.0".to_string(), lock_module("bar", "3.0.0", "", "target.wasm"));
    let mut commands: StrMap<LockfileCommand> = StrMap::new();
    commands.insert("bar".to_string(), LockfileCommand { module: "bar 3.0.0".to_string() });
    let lockfile = Lockfile { modules, commands };

    let foo_command_name = "foo";
    let bar_command_name = "bar";

    let result = lockfile.get_command(foo_command_name);
    assert!(result.is_err());

    let result = lockfile.get_command(bar_command_name);
    assert!(result.is_ok());
}

#[test]
fn fill_lockfile_data() {
    let mut lockfile_modules: StrMap<LockfileModule> = StrMap::new();
    let mut lockfile_commands: StrMap<LockfileCommand> = StrMap::new();
    let foo_manifest = Manifest {
        module: Some(manifest_module("foo", "1.0.0", "foo.wasm", "")),
        command: Some(vec![command("do_foo_stuff"), command("do_other_stuff")]),
        dependencies: None,
    };
    let dependency = Dependency {
        name: "foo".to_string(),
        manifest: foo_manifest,
        download_url: "".to_string(),
    };
    get_lockfile_data_from_manifest(&dependency, &mut lockfile_modules, &mut lockfile_commands);
    assert_eq!(1, lockfile_modules.len());
    assert_eq!(2, lockfile_commands.len());
}

#[test]
fn lock_file_exists_and_one_unchanged_dependency() {
    let manifest = Manifest {
        module: Some(manifest_module("test", "1.0.0", "target.wasm", "description")),
        command: None,
        dependencies: Some(vec![string_pair("foo", "1.0.0"), string_pair("bar", "2.0.1")]),
    };
    let mut lockfile_modules: StrMap<LockfileModule> = StrMap::new();
    lockfile_modules
        .insert("foo 1.0.0".to_string(), lock_module("foo", "1.0.0", "", "target.wasm"));
    // the lock recorded bar at 3.0.0: the declared constraint changed
    lockfile_modules
        .insert("bar 3.0.0".to_string(), lock_module("bar", "3.0.0", "", "target.wasm"));
    let (changes, not_changed) = resolve_changes(&manifest, &lockfile_modules);
    assert_eq!(1, changes.len()); // one dependency was upgraded
    assert_eq!(1, not_changed.len()); // one dependency did not change, reuse the lockfile module
}

#[test]
fn create_from_manifest() {
    let manifest = Manifest {
        module: Some(manifest_module("test", "1.0.0", "target.wasm", "description")),
        command: None,
        dependencies: None,
    };
    let resolver = TestResolver(Vec::new());
    let lockfile = Lockfile::new_from_manifest(&manifest, &resolver).unwrap();
    assert_eq!(0, lockfile.commands.len());
    assert_eq!(0, lockfile.modules.len());
}

#[test]
fn create_from_manifest_and_existing_lockfile_with_dependencies_and_commands() {
    let manifest = Manifest {
        module: Some(manifest_module("test", "1.0.0", "target.wasm", "description")),
        command: None,
        dependencies: Some(vec![string_pair("foo", "1.0.2"), string_pair("bar", "3.0.0")]),
    };

    // set up the resolver table
    let mut table: Vec<((String, String), Dependency)> = Vec::new();
    // FOO package v 1.0.0
    let foo_manifest = Manifest {
        module: Some(manifest_module("foo", "1.0.0", "foo.wasm", "")),
        command: Some(vec![command("do_foo_stuff")]),
        dependencies: None,
    };
    let foo_dependency = Dependency {
        name: "foo".to_string(),
        manifest: foo_manifest,
        download_url: "".to_string(),
    };
    table.push((string_pair("foo", "1.0.2"), foo_dependency));
    // FOO package v 1.0.2, overriding the entry above
    let newer_foo_manifest = Manifest {
        module: Some(manifest_module("foo", "1.0.2", "foo.wasm", "")),
        command: Some(vec![command("do_more_foo_stuff")]), // command removed and added
        dependencies: None,
    };
    let newer_foo_dependency = Dependency {
        name: "foo".to_string(),
        manifest: newer_foo_manifest,
        download_url: "".to_string(),
    };
    table.push((string_pair("foo", "1.0.2"), newer_foo_dependency));
    // BAR package v 2.0.1
    let bar_manifest = Manifest {
        module: Some(manifest_module("bar", "2.0.1", "bar.wasm", "")),
        command: None,
        dependencies: None,
    };
    let bar_dependency = Dependency {
        name: "foo".to_string(),
        manifest: bar_manifest,
        download_url: "".to_string(),
    };
    table.push((string_pair("bar", "2.0.1"), bar_dependency));
    // BAR package v 3.0.0
    let bar_newer_manifest = Manifest {
        module: Some(manifest_module("bar", "3.0.0", "bar.wasm", "")),
        command: Some(vec![command("do_bar_stuff")]), // added command
        dependencies: None,
    };
    let bar_newer_dependency = Dependency {
        name: "foo".to_string(),
        manifest: bar_newer_manifest,
        download_url: "".to_string(),
    };
    table.push((string_pair("bar", "3.0.0"), bar_newer_dependency));
    let test_resolver = TestResolver(table);

    // existing lockfile
    let mut existing_modules: StrMap<LockfileModule> = StrMap::new();
    existing_modules.insert(
        "foo 1.0.0".to_string(),
        lock_module("foo", "1.0.0", "registry+foo", "foo.wasm"),
    );
    existing_modules.insert(
        "bar 2.0.1".to_string(),
        lock_module("bar", "2.0.1", "registry+bar", "bar.wasm"),
    );
    let mut existing_commands: StrMap<LockfileCommand> = StrMap::new();
    existing_commands
        .insert("do_foo_stuff".to_string(), LockfileCommand { module: "foo 1.0.0".to_string() });
    let existing_lockfile = Lockfile { modules: existing_modules, commands: existing_commands };

    let lockfile =
        Lockfile::new_from_manifest_and_lockfile(&manifest, existing_lockfile, &test_resolver)
            .unwrap();

    // expected lockfile
    let mut expected_modules: StrMap<LockfileModule> = StrMap::new();
    expected_modules.insert(
        "foo 1.0.2".to_string(),
        lock_module("foo", "1.0.2", "registry+foo", "foo.wasm"),
    );
    expected_modules.insert(
        "bar 3.0.0".to_string(),
        lock_module("bar", "3.0.0", "registry+bar", "bar.wasm"),
    );
    let mut expected_commands: StrMap<LockfileCommand> = StrMap::new();
    expected_commands.insert(
        "do_more_foo_stuff".to_string(),
        LockfileCommand { module: "foo 1.0.2".to_string() },
    );
    expected_commands
        .insert("do_bar_stuff".to_string(), LockfileCommand { module: "bar 3.0.0".to_string() });
    let expected_lockfile = Lockfile { modules: expected_modules, commands: expected_commands };

    assert!(expected_lockfile.equals(&lockfile));
    // the command of the replaced foo 1.0.0 is gone
    assert!(lockfile.get_command("do_foo_stuff").is_err());
}

#[test]
fn new_from_manifest_without_declarations_builds_empty_lock() {
    let manifest = Manifest { module: None, command: None, dependencies: None };
    let resolver = TestResolver(Vec::new());
    let lockfile = Lockfile::new_from_manifest(&manifest, &resolver).unwrap();
    assert_eq!(0, lockfile.modules.len());
    assert_eq!(0, lockfile.commands.len());
}

#[test]
fn unchanged_dependency_skips_the_resolver() {
    let manifest = Manifest {
        module: None,
        command: None,
        dependencies: Some(vec![string_pair("foo", "1.0.0")]),
    };
    let mut existing_modules: StrMap<LockfileModule> = StrMap::new();
    existing_modules.insert(
        "foo 1.0.0".to_string(),
        lock_module("foo", "1.0.0", "registry+foo", "foo.wasm"),
    );
    let mut existing_commands: StrMap<LockfileCommand> = StrMap::new();
    existing_commands
        .insert("do_foo_stuff".to_string(), LockfileCommand { module: "foo 1.0.0".to_string() });
    let existing_lockfile = Lockfile { modules: existing_modules, commands: existing_commands };

    // a resolver that fails on every pair: construction succeeds only if it
    // is never asked
    let failing_resolver = TestResolver(Vec::new());
    let lockfile =
        Lockfile::new_from_manifest_and_lockfile(&manifest, existing_lockfile, &failing_resolver)
            .unwrap();

    let module = lockfile.get_module("foo 1.0.0").unwrap();
    assert_eq!(module.name, "foo");
    assert_eq!(module.version, "1.0.0");
    assert_eq!(module.source, "registry+foo");
    assert_eq!(module.entry, "foo.wasm");
    // the unchanged module's command is carried over too
    let kept = lockfile.get_command("do_foo_stuff").unwrap();
    assert_eq!(kept.module, "foo 1.0.0");
}

#[test]
fn changed_constraint_reaches_the_resolver() {
    // a pure version bump of the declared constraint: the recorded key no
    // longer matches, so the resolver is asked, and here it fails
    let manifest = Manifest {
        module: None,
        command: None,
        dependencies: Some(vec![string_pair("foo", "1.0.2")]),
    };
    let mut existing_modules: StrMap<LockfileModule> = StrMap::new();
    existing_modules.insert(
        "foo 1.0.0".to_string(),
        lock_module("foo", "1.0.0", "registry+foo", "foo.wasm"),
    );
    let existing_lockfile =
        Lockfile { modules: existing_modules, commands: StrMap::new() };

    let failing_resolver = TestResolver(Vec::new());
    let result =
        Lockfile::new_from_manifest_and_lockfile(&manifest, existing_lockfile, &failing_resolver);
    let err = result.err().unwrap();
    assert_eq!(err.name, "foo");
    assert_eq!(err.version, "1.0.2");
}

#[test]
fn lookups_name_exactly_what_was_asked() {
    let mut modules: StrMap<LockfileModule> = StrMap::new();
    modules.insert("foo 1.0.0".to_string(), lock_module("foo", "1.0.0", "", "foo.wasm"));
    let mut commands: StrMap<LockfileCommand> = StrMap::new();
    commands.insert("do_foo_stuff".to_string(), LockfileCommand { module: "foo 1.0.0".to_string() });
    let lockfile = Lockfile { modules, commands };

    // a present key returns the exact stored record
    let module = lockfile.get_module("foo 1.0.0").unwrap();
    assert_eq!(module.version, "1.0.0");
    let cmd = lockfile.get_command("do_foo_stuff").unwrap();
    assert_eq!(cmd.module, "foo 1.0.0");

    // a miss carries back exactly the requested identifier
    match lockfile.get_module("foo 9.9.9") {
        Err(LockfileError::ModuleNotFound(name)) => assert_eq!(name, "foo 9.9.9"),
        _ => panic!("expected a module lookup miss"),
    }
    match lockfile.get_command("do_bar_stuff") {
        Err(LockfileError::CommandNotFound(name)) => assert_eq!(name, "do_bar_stuff"),
        _ => panic!("expected a command lookup miss"),
    }
}

#[test]
fn commands_without_module_contribute_nothing() {
    // the root manifest declares commands but owns no module
    let manifest = Manifest {
        module: None,
        command: Some(vec![command("orphan")]),
        dependencies: None,
    };
    let mut lockfile_commands: StrMap<LockfileCommand> = StrMap::new();
    get_commands_from_manifest(&manifest, &mut lockfile_commands);
    assert_eq!(0, lockfile_commands.len());

    // a dependency whose manifest declares commands but no module
    let moduleless = Manifest {
        module: None,
        command: Some(vec![command("orphan")]),
        dependencies: None,
    };
    let dependency = Dependency {
        name: "foo".to_string(),
        manifest: moduleless,
        download_url: "".to_string(),
    };
    let mut lockfile_modules: StrMap<LockfileModule> = StrMap::new();
    get_lockfile_data_from_manifest(&dependency, &mut lockfile_modules, &mut lockfile_commands);
    assert_eq!(0, lockfile_modules.len());
    assert_eq!(0, lockfile_commands.len());
}

#[test]
fn root_commands_shadow_dependency_commands() {
    let manifest = Manifest {
        module: Some(manifest_module("root", "0.1.0", "root.wasm", "")),
        command: Some(vec![command("run")]),
        dependencies: Some(vec![string_pair("dep", "1.0.0")]),
    };
    let dep_manifest = Manifest {
        module: Some(manifest_module("dep", "1.0.0", "dep.wasm", "")),
        command: Some(vec![command("run")]),
        dependencies: None,
    };
    let dependency = Dependency {
        name: "dep".to_string(),
        manifest: dep_manifest,
        download_url: "".to_string(),
    };
    let resolver = TestResolver(vec![(string_pair("dep", "1.0.0"), dependency)]);
    let lockfile = Lockfile::new_from_manifest(&manifest, &resolver).unwrap();
    // the root's own command wins over the dependency's same-named command
    let run = lockfile.get_command("run").unwrap();
    assert_eq!(run.module, "root 0.1.0");
}

#[test]
fn from_module_derives_the_lock_record() {
    let module = manifest_module("foo", "1.0.0", "foo.wasm", "a module");
    let record = LockfileModule::from_module(&module, "https://registry.example/foo");
    assert_eq!(record.name, "foo");
    assert_eq!(record.version, "1.0.0");
    assert_eq!(record.source, "registry+foo");
    assert_eq!(record.resolved, "https://registry.example/foo");
    assert_eq!(record.integrity, "");
    assert_eq!(record.hash, "");
    assert_eq!(record.abi, "None");
    assert_eq!(record.entry, "foo.wasm");
}

#[test]
fn later_command_export_wins() {
    // two dependencies export the same command name: the later import wins
    let manifest = Manifest {
        module: None,
        command: None,
        dependencies: Some(vec![string_pair("first", "1.0.0"), string_pair("second", "1.0.0")]),
    };
    let first = Dependency {
        name: "first".to_string(),
        manifest: Manifest {
            module: Some(manifest_module("first", "1.0.0", "first.wasm", "")),
            command: Some(vec![command("tool")]),
            dependencies: None,
        },
        download_url: "".to_string(),
    };
    let second = Dependency {
        name: "second".to_string(),
        manifest: Manifest {
            module: Some(manifest_module("second", "1.0.0", "second.wasm", "")),
            command: Some(vec![command("tool")]),
            dependencies: None,
        },
        download_url: "".to_string(),
    };
    let resolver = TestResolver(vec![
        (string_pair("first", "1.0.0"), first),
        (string_pair("second", "1.0.0"), second),
    ]);
    let lockfile = Lockfile::new_from_manifest(&manifest, &resolver).unwrap();
    assert_eq!(2, lockfile.modules.len());
    let tool = lockfile.get_command("tool").unwrap();
    assert_eq!(tool.module, "second 1.0.0");
}
