use vakil::abi::{PluginManifest, SemVer};
use vakil::host::{
    build_init_context, collect_env_snapshot, host_abi_version, is_plugin_library,
    validate_manifest, LoadAction, LoadPhase, ModuleKind, ModuleLoadFailure, ModuleLoader,
};

fn vars(pairs: &[(&str, &str)]) -> Vec<(String, String)> {
    pairs.iter().map(|(k, v)| (k.to_string(), v.to_string())).collect()
}

fn valid_manifest() -> PluginManifest {
    PluginManifest { name: "test-plugin".to_string(), version: host_abi_version() }
}

#[test]
fn builds_init_context_with_metadata() {
    let context = build_init_context("/tmp/plugins/example.so", &vars(&[("A", "1"), ("B", "2")]))
        .expect("init context");

    assert_eq!(context.library_path.as_str(), "/tmp/plugins/example.so");
    assert_eq!(context.plugin_dir.as_ref().expect("plugin dir").as_str(), "/tmp/plugins");
    assert_eq!(context.env.entries.len(), 2);
    let version_str = format!(
        "{}.{}.{}",
        context.host_version.major, context.host_version.minor, context.host_version.patch
    );
    assert_eq!(version_str, "0.1.0");
}

#[test]
fn builds_init_context_without_parent_directory() {
    let context = build_init_context("/", &vars(&[])).expect("init context");

    assert_eq!(context.library_path.as_str(), "/");
    assert!(context.plugin_dir.is_none());
}

#[test]
fn validates_manifest() {
    let manifest = valid_manifest();
    validate_manifest(&manifest).expect("valid root");
}

#[test]
fn rejects_incompatible_manifest_versions() {
    let mut manifest = valid_manifest();
    manifest.version = SemVer { major: host_abi_version().major + 1, minor: 0, patch: 0 };

    match validate_manifest(&manifest) {
        Ok(()) => panic!("version mismatch should fail"),
        Err(e) => assert!(e.message().contains("incompatible")),
    }
}

#[test]
fn collects_env_snapshot() {
    let snapshot = collect_env_snapshot(&vars(&[("X", "y")]));
    assert_eq!(snapshot.entries.len(), 1);
    assert_eq!(snapshot.entries[0].name.as_str(), "X");
    assert_eq!(snapshot.entries[0].value.as_str(), "y");
}

#[test]
fn loads_and_shuts_down_all_protocol_modules() {
    let manifest = valid_manifest();
    validate_manifest(&manifest).expect("valid root");
    let _context = build_init_context("/tmp/plugins/example.so", &vars(&[])).expect("init context");

    let (mut loader, mut action) = ModuleLoader::start(true, true, true);
    let mut inits = [0u32; 3];
    let mut factories = [0u32; 3];
    let mut steps = 0;
    while action != LoadAction::Finished {
        match action {
            LoadAction::CallFactory(k) => factories[k as usize] += 1,
            LoadAction::CallInit(k) => inits[k as usize] += 1,
            other => panic!("unexpected action {:?}", other),
        }
        action = loader.step(true);
        steps += 1;
        assert!(steps <= 6, "modules");
    }
    assert_eq!(factories, [1, 1, 1]);
    assert_eq!(inits, [1, 1, 1]);
    assert!(loader.pending.is_none());
}

#[test]
fn newer_minor_manifest_is_refused() {
    let manifest = PluginManifest {
        name: "p".to_string(),
        version: SemVer { major: 0, minor: 2, patch: 0 },
    };
    let err = validate_manifest(&manifest).expect_err("newer minor");
    assert_eq!(err.message(), "plugin minor version 2 is newer than host ABI 1");
    let older = PluginManifest {
        name: "p".to_string(),
        version: SemVer { major: 0, minor: 0, patch: 9 },
    };
    assert!(validate_manifest(&older).is_ok());
}

#[test]
fn incompatible_major_message_is_exact() {
    let manifest = PluginManifest {
        name: "p".to_string(),
        version: SemVer { major: 3, minor: 0, patch: 0 },
    };
    let err = validate_manifest(&manifest).expect_err("major");
    assert_eq!(err.message(), "plugin major version 3 is incompatible with host ABI 0");
}

#[test]
fn module_loader_visits_exported_modules_in_order() {
    let (mut loader, first) = ModuleLoader::start(false, true, true);
    assert_eq!(first, LoadAction::CallFactory(ModuleKind::Tcp));
    assert_eq!(loader.step(true), LoadAction::CallInit(ModuleKind::Tcp));
    assert_eq!(loader.step(true), LoadAction::CallFactory(ModuleKind::Udp));
    assert_eq!(loader.step(true), LoadAction::CallInit(ModuleKind::Udp));
    assert_eq!(loader.step(true), LoadAction::Finished);

    let (_, none) = ModuleLoader::start(false, false, false);
    assert_eq!(none, LoadAction::Finished);
}

#[test]
fn module_loader_stops_at_first_failure() {
    let (mut loader, _) = ModuleLoader::start(true, true, false);
    assert_eq!(loader.step(true), LoadAction::CallInit(ModuleKind::Http));
    let failed = loader.step(false);
    let failure = ModuleLoadFailure { kind: ModuleKind::Http, phase: LoadPhase::Init };
    assert_eq!(failed, LoadAction::Failed(failure));
    assert_eq!(failure.message(), "http module init failed");
    assert!(loader.pending.is_none());

    let (mut loader, _) = ModuleLoader::start(false, false, true);
    let failed = loader.step(false);
    let failure = ModuleLoadFailure { kind: ModuleKind::Udp, phase: LoadPhase::Factory };
    assert_eq!(failed, LoadAction::Failed(failure));
    assert_eq!(failure.message(), "udp module factory failed");
}

#[test]
fn module_loader_shuts_down_started_modules_after_a_failure() {
    let (mut loader, first) = ModuleLoader::start(true, true, true);
    assert_eq!(first, LoadAction::CallFactory(ModuleKind::Http));
    assert_eq!(loader.step(true), LoadAction::CallInit(ModuleKind::Http));
    assert_eq!(loader.step(true), LoadAction::CallFactory(ModuleKind::Tcp));
    // The tcp factory fails: the initialized http module is shut down first.
    assert_eq!(loader.step(false), LoadAction::CallShutdown(ModuleKind::Http));
    let failure = ModuleLoadFailure { kind: ModuleKind::Tcp, phase: LoadPhase::Factory };
    assert_eq!(loader.step(true), LoadAction::Failed(failure));
    assert_eq!(failure.message(), "tcp module factory failed");
    assert!(loader.pending.is_none() && loader.unwinding.is_none());

    // A udp init failure shuts down http, then tcp.
    let (mut loader, _) = ModuleLoader::start(true, true, true);
    for _ in 0..5 {
        loader.step(true);
    }
    assert_eq!(loader.step(false), LoadAction::CallShutdown(ModuleKind::Http));
    assert_eq!(loader.step(true), LoadAction::CallShutdown(ModuleKind::Tcp));
    let failure = ModuleLoadFailure { kind: ModuleKind::Udp, phase: LoadPhase::Init };
    assert_eq!(loader.step(true), LoadAction::Failed(failure));
}

#[test]
fn plugin_libraries_are_recognized_by_extension() {
    assert!(is_plugin_library("/tmp/plugins/libnoop.so", "so"));
    assert!(!is_plugin_library("/tmp/plugins/libnoop.so.1", "so"));
    assert!(!is_plugin_library("/tmp/plugins/README", "so"));
    assert!(!is_plugin_library("/tmp/plugins/.so", "so"));
    assert!(is_plugin_library("C:/plugins/noop.dll", "dll"));
}
