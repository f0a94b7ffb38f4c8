//! Plugin host decisions: manifest compatibility, init contexts, and the
//! order in which protocol modules are created and initialized.

use vstd::prelude::*;
use crate::abi::{EnvSnapshot, KVPair, PluginInitContext, PluginManifest, SemVer};
use crate::text::{chars_of, decimal, push_decimal, push_str, string_of};

verus! {

/// The plugin ABI version that this host implements.
pub open spec fn host_abi_version_spec() -> SemVer {
    SemVer { major: 0, minor: 1, patch: 0 }
}

/// The plugin ABI version that this host implements.
pub fn host_abi_version() -> (v: SemVer)
    ensures
        v == host_abi_version_spec(),
{
    SemVer { major: 0, minor: 1, patch: 0 }
}

/// The version of the host package, handed to plugins at init.
pub open spec fn host_package_version_spec() -> SemVer {
    SemVer { major: 0, minor: 1, patch: 0 }
}

/// The version of the host package, handed to plugins at init.
pub fn host_package_version() -> (v: SemVer)
    ensures
        v == host_package_version_spec(),
{
    SemVer { major: 0, minor: 1, patch: 0 }
}

/// Why a plugin manifest was refused.
#[derive(Clone, Copy, Debug, PartialEq, Eq, Structural)]
pub enum ManifestError {
    /// The plugin's major version differs from the host ABI's.
    IncompatibleMajor { plugin: u8, host: u8 },
    /// The plugin's minor version is newer than the host ABI's.
    NewerMinor { plugin: u8, host: u8 },
}

/// The verdict on a manifest: its major version must equal the host ABI's,
/// and its minor version must not exceed the host ABI's.
pub open spec fn manifest_verdict(v: SemVer) -> Result<(), ManifestError> {
    let host = host_abi_version_spec();
    if v.major != host.major {
        Err(ManifestError::IncompatibleMajor { plugin: v.major, host: host.major })
    } else if v.minor > host.minor {
        Err(ManifestError::NewerMinor { plugin: v.minor, host: host.minor })
    } else {
        Ok(())
    }
}

/// Checks that a plugin manifest is compatible with the host ABI.
pub fn validate_manifest(manifest: &PluginManifest) -> (r: Result<(), ManifestError>)
    ensures
        r == manifest_verdict(manifest.version),
{
    let host = host_abi_version();
    if manifest.version.major != host.major {
        return Err(ManifestError::IncompatibleMajor { plugin: manifest.version.major, host: host.major });
    }
    if manifest.version.minor > host.minor {
        return Err(ManifestError::NewerMinor { plugin: manifest.version.minor, host: host.minor });
    }
    Ok(())
}

/// The text of a manifest error.
pub open spec fn manifest_error_text(e: ManifestError) -> Seq<char> {
    match e {
        ManifestError::IncompatibleMajor { plugin, host } => "plugin major version "@ + decimal(
            plugin as nat,
        ) + " is incompatible with host ABI "@ + decimal(host as nat),
        ManifestError::NewerMinor { plugin, host } => "plugin minor version "@ + decimal(
            plugin as nat,
        ) + " is newer than host ABI "@ + decimal(host as nat),
    }
}

impl ManifestError {
    /// The message that reports this error.
    pub fn message(&self) -> (s: String)
        ensures
            s@ == manifest_error_text(*self),
    {
        let mut out: Vec<char> = Vec::new();
        match self {
            ManifestError::IncompatibleMajor { plugin, host } => {
                push_str(&mut out, "plugin major version ");
                push_decimal(*plugin as u64, &mut out);
                push_str(&mut out, " is incompatible with host ABI ");
                push_decimal(*host as u64, &mut out);
            },
            ManifestError::NewerMinor { plugin, host } => {
                push_str(&mut out, "plugin minor version ");
                push_decimal(*plugin as u64, &mut out);
                push_str(&mut out, " is newer than host ABI ");
                push_decimal(*host as u64, &mut out);
            },
        }
        assert(out@ =~= manifest_error_text(*self));
        string_of(&out)
    }
}

/// The environment snapshot holds the variables `vars`, in order.
pub open spec fn snapshot_of(snapshot: EnvSnapshot, vars: Seq<(String, String)>) -> bool {
    &&& snapshot.entries@.len() == vars.len()
    &&& forall|i: int|
        0 <= i < vars.len() ==> (#[trigger] snapshot.entries@[i]).name == vars[i].0
            && snapshot.entries@[i].value == vars[i].1
}

/// Collects name/value pairs into an environment snapshot.
pub fn collect_env_snapshot(vars: &Vec<(String, String)>) -> (snapshot: EnvSnapshot)
    ensures
        snapshot_of(snapshot, vars@),
{
    let mut entries: Vec<KVPair> = Vec::new();
    let mut i: usize = 0;
    while i < vars.len()
        invariant
            i <= vars.len(),
            entries@.len() == i,
            forall|k: int|
                0 <= k < i ==> (#[trigger] entries@[k]).name == vars@[k].0 && entries@[k].value
                    == vars@[k].1,
        decreases vars.len() - i,
    {
        let (name, value) = &vars[i];
        entries.push(KVPair { name: name.clone(), value: value.clone() });
        i = i + 1;
    }
    EnvSnapshot { entries }
}

/// What `std::path::Path::parent` returns for the path `path`, written back
/// as text.
pub uninterp spec fn std_path_parent(path: Seq<char>) -> Option<Seq<char>>;

/// The parent directory of `path` (`Path::parent`).
#[verifier::external_body]
fn path_parent(path: &str) -> (r: Option<String>)
    ensures
        match std_path_parent(path@) {
            Some(p) => r matches Some(s) && s@ == p,
            None => r is None,
        },
{
    std::path::Path::new(path).parent().map(|dir| dir.to_string_lossy().into_owned())
}

/// Builds the init context that a plugin at `path` receives, with the
/// startup environment `vars`. Never fails.
pub fn build_init_context(path: &str, vars: &Vec<(String, String)>) -> (r: Result<
    PluginInitContext,
    ManifestError,
>)
    ensures
        r matches Ok(ctx) && {
            &&& ctx.library_path@ == path@
            &&& match std_path_parent(path@) {
                Some(p) => ctx.plugin_dir matches Some(d) && d@ == p,
                None => ctx.plugin_dir is None,
            }
            &&& ctx.host_version == host_package_version_spec()
            &&& snapshot_of(ctx.env, vars@)
        },
{
    let plugin_dir = path_parent(path);
    let env = collect_env_snapshot(vars);
    Ok(
        PluginInitContext {
            library_path: string_of(&chars_of(path)),
            plugin_dir,
            host_version: host_package_version(),
            env,
        },
    )
}

} // verus!

verus! {

/// A protocol module that a plugin root may export.
#[derive(Clone, Copy, Debug, PartialEq, Eq, Structural)]
pub enum ModuleKind {
    Http,
    Tcp,
    Udp,
}

/// The step of a module's start-up.
#[derive(Clone, Copy, Debug, PartialEq, Eq, Structural)]
pub enum LoadPhase {
    /// The plugin's factory for the module.
    Factory,
    /// The module's init callback.
    Init,
}

/// The start-up step that failed, and for which module.
#[derive(Clone, Copy, Debug, PartialEq, Eq, Structural)]
pub struct ModuleLoadFailure {
    pub kind: ModuleKind,
    pub phase: LoadPhase,
}

/// Why the host refused a plugin.
#[derive(Clone, Copy, Debug, PartialEq, Eq, Structural)]
pub enum HostError {
    Manifest(ManifestError),
    Module(ModuleLoadFailure),
}

/// The field name of a module kind.
pub open spec fn kind_name(k: ModuleKind) -> Seq<char> {
    match k {
        ModuleKind::Http => "http"@,
        ModuleKind::Tcp => "tcp"@,
        ModuleKind::Udp => "udp"@,
    }
}

/// The text of a module start-up failure.
pub open spec fn load_failure_text(f: ModuleLoadFailure) -> Seq<char> {
    kind_name(f.kind) + match f.phase {
        LoadPhase::Factory => " module factory failed"@,
        LoadPhase::Init => " module init failed"@,
    }
}

impl ModuleLoadFailure {
    /// The message that reports this failure.
    pub fn message(&self) -> (s: String)
        ensures
            s@ == load_failure_text(*self),
    {
        let mut out: Vec<char> = Vec::new();
        match self.kind {
            ModuleKind::Http => push_str(&mut out, "http"),
            ModuleKind::Tcp => push_str(&mut out, "tcp"),
            ModuleKind::Udp => push_str(&mut out, "udp"),
        }
        match self.phase {
            LoadPhase::Factory => push_str(&mut out, " module factory failed"),
            LoadPhase::Init => push_str(&mut out, " module init failed"),
        }
        string_of(&out)
    }
}

/// What the host does next while starting a plugin's modules.
#[derive(Clone, Copy, Debug, PartialEq, Eq, Structural)]
pub enum LoadAction {
    /// Call the plugin's factory for this module.
    CallFactory(ModuleKind),
    /// Call the init callback of the module that the factory returned.
    CallInit(ModuleKind),
    /// Call the shutdown callback of this module, which was initialized
    /// before start-up failed.
    CallShutdown(ModuleKind),
    /// Every exported module was created and initialized.
    Finished,
    /// Start-up failed, and every module initialized before the failure was
    /// shut down; no further module is touched.
    Failed(ModuleLoadFailure),
}

/// Decides the order in which the modules of a plugin root are created and
/// initialized: HTTP, then TCP, then UDP, each exported one created by its
/// factory and then initialized, stopping at the first failure, after which
/// the modules already initialized are shut down in the same order.
pub struct ModuleLoader {
    pub exports: (bool, bool, bool),
    /// The start-up step whose result is awaited, if any.
    pub pending: Option<(ModuleKind, LoadPhase)>,
    /// After a failure: the module whose shutdown is awaited, and the
    /// failure to report once the shutdowns are done.
    pub unwinding: Option<(ModuleKind, ModuleLoadFailure)>,
}

/// The kind at position `i` of the start-up order.
pub open spec fn kind_at(i: int) -> ModuleKind {
    if i == 0 {
        ModuleKind::Http
    } else if i == 1 {
        ModuleKind::Tcp
    } else {
        ModuleKind::Udp
    }
}

/// The position of a kind in the start-up order.
pub open spec fn kind_pos(k: ModuleKind) -> int {
    match k {
        ModuleKind::Http => 0,
        ModuleKind::Tcp => 1,
        ModuleKind::Udp => 2,
    }
}

/// Whether the root exports the module at position `i`.
pub open spec fn exported(exports: (bool, bool, bool), i: int) -> bool {
    if i == 0 {
        exports.0
    } else if i == 1 {
        exports.1
    } else if i == 2 {
        exports.2
    } else {
        false
    }
}

/// The first position at or after `i` whose module is exported, or 3.
pub open spec fn next_exported(exports: (bool, bool, bool), i: int) -> int
    decreases 3 - i,
{
    if i >= 3 {
        3
    } else if exported(exports, i) {
        i
    } else {
        next_exported(exports, i + 1)
    }
}

/// The action that starts the module at or after position `i`, or finishes.
pub open spec fn advance_from(exports: (bool, bool, bool), i: int) -> LoadAction {
    let n = next_exported(exports, i);
    if n < 3 {
        LoadAction::CallFactory(kind_at(n))
    } else {
        LoadAction::Finished
    }
}

/// The step that an action awaits a result for.
pub open spec fn awaited(a: LoadAction) -> Option<(ModuleKind, LoadPhase)> {
    match a {
        LoadAction::CallFactory(k) => Some((k, LoadPhase::Factory)),
        LoadAction::CallInit(k) => Some((k, LoadPhase::Init)),
        _ => None,
    }
}

/// After the failure `f`: shut down the first exported module at or after
/// position `from` and before position `limit`, or report the failure.
pub open spec fn unwind_from(exports: (bool, bool, bool), from: int, limit: int, f: ModuleLoadFailure) -> LoadAction {
    let n = next_exported(exports, from);
    if n < limit {
        LoadAction::CallShutdown(kind_at(n))
    } else {
        LoadAction::Failed(f)
    }
}

/// The shutdown that an action awaits, with the failure it unwinds.
pub open spec fn unwound(a: LoadAction, f: ModuleLoadFailure) -> Option<(ModuleKind, ModuleLoadFailure)> {
    match a {
        LoadAction::CallShutdown(k) => Some((k, f)),
        _ => None,
    }
}

/// The action after the shutdown of module `k` while unwinding `f`.
pub open spec fn shutdown_transition(exports: (bool, bool, bool), k: ModuleKind, f: ModuleLoadFailure) -> LoadAction {
    unwind_from(exports, kind_pos(k) + 1, kind_pos(f.kind), f)
}

/// The action after the step `step` of a run ended with `succeeded`. A
/// failure shuts down the exported modules before the failing one, which
/// were all initialized.
pub open spec fn load_transition(
    exports: (bool, bool, bool),
    step: (ModuleKind, LoadPhase),
    succeeded: bool,
) -> LoadAction {
    if !succeeded {
        unwind_from(exports, 0, kind_pos(step.0), ModuleLoadFailure { kind: step.0, phase: step.1 })
    } else {
        match step.1 {
            LoadPhase::Factory => LoadAction::CallInit(step.0),
            LoadPhase::Init => advance_from(exports, kind_pos(step.0) + 1),
        }
    }
}

fn next_exported_exec(exports: (bool, bool, bool), i: u8) -> (n: u8)
    requires
        i <= 3,
    ensures
        n == next_exported(exports, i as int),
        i <= n <= 3,
    decreases 3 - i,
{
    if i >= 3 {
        3
    } else if (i == 0 && exports.0) || (i == 1 && exports.1) || (i == 2 && exports.2) {
        i
    } else {
        next_exported_exec(exports, i + 1)
    }
}

fn advance_from_exec(exports: (bool, bool, bool), i: u8) -> (a: LoadAction)
    requires
        i <= 3,
    ensures
        a == advance_from(exports, i as int),
{
    let n = next_exported_exec(exports, i);
    if n == 0 {
        LoadAction::CallFactory(ModuleKind::Http)
    } else if n == 1 {
        LoadAction::CallFactory(ModuleKind::Tcp)
    } else if n == 2 {
        LoadAction::CallFactory(ModuleKind::Udp)
    } else {
        LoadAction::Finished
    }
}

fn kind_pos_exec(k: ModuleKind) -> (p: u8)
    ensures
        p == kind_pos(k),
{
    match k {
        ModuleKind::Http => 0,
        ModuleKind::Tcp => 1,
        ModuleKind::Udp => 2,
    }
}

fn unwind_from_exec(exports: (bool, bool, bool), from: u8, limit: u8, f: ModuleLoadFailure) -> (a: LoadAction)
    requires
        from <= 3,
    ensures
        a == unwind_from(exports, from as int, limit as int, f),
{
    let n = next_exported_exec(exports, from);
    if n < limit {
        if n == 0 {
            LoadAction::CallShutdown(ModuleKind::Http)
        } else if n == 1 {
            LoadAction::CallShutdown(ModuleKind::Tcp)
        } else {
            LoadAction::CallShutdown(ModuleKind::Udp)
        }
    } else {
        LoadAction::Failed(f)
    }
}

impl ModuleLoader {
    /// Starts a run for a root that exports the given modules, and returns
    /// the first action.
    pub fn start(exports_http: bool, exports_tcp: bool, exports_udp: bool) -> (r: (
        ModuleLoader,
        LoadAction,
    ))
        ensures
            r.0.exports == (exports_http, exports_tcp, exports_udp),
            r.1 == advance_from(r.0.exports, 0),
            r.0.pending == awaited(r.1),
            r.0.unwinding is None,
    {
        let exports = (exports_http, exports_tcp, exports_udp);
        let a = advance_from_exec(exports, 0);
        let pending = match a {
            LoadAction::CallFactory(k) => Some((k, LoadPhase::Factory)),
            LoadAction::CallInit(k) => Some((k, LoadPhase::Init)),
            _ => None,
        };
        (ModuleLoader { exports, pending, unwinding: None }, a)
    }

    /// Reports whether the awaited step succeeded, and returns the next
    /// action. The result of an awaited shutdown is not read.
    pub fn step(&mut self, succeeded: bool) -> (a: LoadAction)
        requires
            old(self).pending is Some || old(self).unwinding is Some,
        ensures
            match old(self).pending {
                Some(st) => {
                    &&& a == load_transition(old(self).exports, st, succeeded)
                    &&& final(self).unwinding == unwound(a, ModuleLoadFailure { kind: st.0, phase: st.1 })
                },
                None => {
                    &&& a == shutdown_transition(old(self).exports, (old(self).unwinding->0).0, (old(self).unwinding->0).1)
                    &&& final(self).unwinding == unwound(a, (old(self).unwinding->0).1)
                },
            },
            final(self).exports == old(self).exports,
            final(self).pending == awaited(a),
    {
        let (a, f) = match self.pending {
            Some((kind, phase)) => {
                let f = ModuleLoadFailure { kind, phase };
                let a = if !succeeded {
                    unwind_from_exec(self.exports, 0, kind_pos_exec(kind), f)
                } else {
                    match phase {
                        LoadPhase::Factory => LoadAction::CallInit(kind),
                        LoadPhase::Init => advance_from_exec(self.exports, kind_pos_exec(kind) + 1),
                    }
                };
                (a, f)
            },
            None => {
                let (kind, f) = self.unwinding.unwrap();
                (unwind_from_exec(self.exports, kind_pos_exec(kind) + 1, kind_pos_exec(f.kind), f), f)
            },
        };
        self.pending = match a {
            LoadAction::CallFactory(k) => Some((k, LoadPhase::Factory)),
            LoadAction::CallInit(k) => Some((k, LoadPhase::Init)),
            _ => None,
        };
        self.unwinding = match a {
            LoadAction::CallShutdown(k) => Some((k, f)),
            _ => None,
        };
        a
    }
}

} // verus!

verus! {

/// What `std::path::Path::extension` gives for `path`, written back as text.
pub uninterp spec fn std_path_extension(path: Seq<char>) -> Option<Seq<char>>;

/// The extension of the file name of `path` (`Path::extension`).
#[verifier::external_body]
fn path_extension(path: &str) -> (r: Option<String>)
    ensures
        match std_path_extension(path@) {
            Some(e) => r matches Some(s) && s@ == e,
            None => r is None,
        },
{
    std::path::Path::new(path).extension().map(|ext| ext.to_string_lossy().into_owned())
}

/// Whether `path` names a plugin library: its extension is the platform's
/// dynamic library extension `library_extension`.
pub fn is_plugin_library(path: &str, library_extension: &str) -> (b: bool)
    ensures
        b == (std_path_extension(path@) == Some(library_extension@)),
{
    match path_extension(path) {
        Some(ext) => crate::text::chars_eq(&chars_of(ext.as_str()), &chars_of(library_extension)),
        None => false,
    }
}

/// The actions of a run in which every step succeeds, starting with `a`,
/// for at most `steps` further steps.
pub open spec fn successful_run(exports: (bool, bool, bool), a: LoadAction, steps: nat) -> Seq<LoadAction>
    decreases steps,
{
    match awaited(a) {
        Some(st) => if steps == 0 {
            seq![a]
        } else {
            seq![a] + successful_run(exports, load_transition(exports, st, true), (steps - 1) as nat)
        },
        None => seq![a],
    }
}

/// For each exported module from position `i` on, in start-up order: its
/// factory call, then its init call.
pub open spec fn module_calls(exports: (bool, bool, bool), i: int) -> Seq<LoadAction>
    decreases 3 - i,
{
    if i >= 3 {
        seq![]
    } else {
        (if exported(exports, i) {
            seq![LoadAction::CallFactory(kind_at(i)), LoadAction::CallInit(kind_at(i))]
        } else {
            seq![]
        }) + module_calls(exports, i + 1)
    }
}

proof fn lemma_successful_run_from(exports: (bool, bool, bool), i: int)
    requires
        0 <= i <= 3,
    ensures
        successful_run(exports, advance_from(exports, i), 6) == module_calls(exports, i).push(
            LoadAction::Finished,
        ),
    decreases 3 - i,
{
    reveal_with_fuel(successful_run, 8);
    reveal_with_fuel(next_exported, 4);
    reveal_with_fuel(module_calls, 4);
    if i < 3 {
        lemma_successful_run_from(exports, i + 1);
    }
    if i == 0 {
        assert(successful_run(exports, advance_from(exports, 0), 6) =~= module_calls(exports, 0).push(
            LoadAction::Finished,
        ));
    } else if i == 1 {
        assert(successful_run(exports, advance_from(exports, 1), 6) =~= module_calls(exports, 1).push(
            LoadAction::Finished,
        ));
    } else if i == 2 {
        assert(successful_run(exports, advance_from(exports, 2), 6) =~= module_calls(exports, 2).push(
            LoadAction::Finished,
        ));
    } else {
        assert(successful_run(exports, advance_from(exports, 3), 6) =~= module_calls(exports, 3).push(
            LoadAction::Finished,
        ));
    }
}

/// When every factory and init call succeeds, a run creates and then
/// initializes each exported module exactly once, HTTP before TCP before
/// UDP, and then finishes.
pub proof fn lemma_successful_start_up(exports: (bool, bool, bool))
    ensures
        successful_run(exports, advance_from(exports, 0), 6) == module_calls(exports, 0).push(
            LoadAction::Finished,
        ),
{
    lemma_successful_run_from(exports, 0);
}

} // verus!

verus! {

/// For each exported module at positions `from` up to `limit`, in start-up
/// order: its shutdown call.
pub open spec fn shutdown_calls(exports: (bool, bool, bool), from: int, limit: int) -> Seq<LoadAction>
    decreases 3 - from,
{
    if from >= 3 || from >= limit {
        seq![]
    } else {
        (if exported(exports, from) {
            seq![LoadAction::CallShutdown(kind_at(from))]
        } else {
            seq![]
        }) + shutdown_calls(exports, from + 1, limit)
    }
}

/// The actions of a run that unwinds the failure `f`, starting with `a`,
/// for at most `steps` further steps.
pub open spec fn unwinding_run(exports: (bool, bool, bool), a: LoadAction, f: ModuleLoadFailure, steps: nat) -> Seq<
    LoadAction,
>
    decreases steps,
{
    match a {
        LoadAction::CallShutdown(k) => if steps == 0 {
            seq![a]
        } else {
            seq![a] + unwinding_run(exports, shutdown_transition(exports, k, f), f, (steps - 1) as nat)
        },
        _ => seq![a],
    }
}

proof fn lemma_unwinding_from(exports: (bool, bool, bool), from: int, f: ModuleLoadFailure)
    requires
        0 <= from <= 3,
    ensures
        unwinding_run(exports, unwind_from(exports, from, kind_pos(f.kind), f), f, 3) == shutdown_calls(
            exports,
            from,
            kind_pos(f.kind),
        ).push(LoadAction::Failed(f)),
    decreases 3 - from,
{
    reveal_with_fuel(unwinding_run, 4);
    reveal_with_fuel(next_exported, 4);
    reveal_with_fuel(shutdown_calls, 4);
    if from < 3 {
        lemma_unwinding_from(exports, from + 1, f);
    }
    let l = kind_pos(f.kind);
    if from == 0 {
        assert(unwinding_run(exports, unwind_from(exports, 0, l, f), f, 3) =~= shutdown_calls(exports, 0, l).push(
            LoadAction::Failed(f),
        ));
    } else if from == 1 {
        assert(unwinding_run(exports, unwind_from(exports, 1, l, f), f, 3) =~= shutdown_calls(exports, 1, l).push(
            LoadAction::Failed(f),
        ));
    } else if from == 2 {
        assert(unwinding_run(exports, unwind_from(exports, 2, l, f), f, 3) =~= shutdown_calls(exports, 2, l).push(
            LoadAction::Failed(f),
        ));
    } else {
        assert(unwinding_run(exports, unwind_from(exports, 3, l, f), f, 3) =~= shutdown_calls(exports, 3, l).push(
            LoadAction::Failed(f),
        ));
    }
}

/// When a factory or init call fails, the run shuts down every exported
/// module before the failing one (all of them initialized), in start-up
/// order, and then reports the failure.
pub proof fn lemma_failed_start_up_unwinds(exports: (bool, bool, bool), step: (ModuleKind, LoadPhase))
    ensures
        unwinding_run(
            exports,
            load_transition(exports, step, false),
            ModuleLoadFailure { kind: step.0, phase: step.1 },
            3,
        ) == shutdown_calls(exports, 0, kind_pos(step.0)).push(
            LoadAction::Failed(ModuleLoadFailure { kind: step.0, phase: step.1 }),
        ),
{
    lemma_unwinding_from(exports, 0, ModuleLoadFailure { kind: step.0, phase: step.1 });
}

} // verus!
