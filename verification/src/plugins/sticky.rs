//! The sticky L4 example plugin: per listener and client IP it keeps one
//! backend for a while, shared by TCP and UDP. Its configuration names the
//! backend pools; a cache with a time to live remembers the assignments.

use vstd::prelude::*;
use crate::abi::{
    default_route, HookAction, HookOutcome, KVPair, PluginError, PluginInitContext, RouteAction,
    RouteDecision, SocketAddress,
};
use crate::plugins::{error_says, plugin_error};
use crate::text::{
    chars_of, last_index_of, parse_u16, parse_u16_chars, push_chars, push_str, rfind_char,
    string_of, string_views, sub_chars, trim, trim_chars,
};

verus! {

/// The outcome `Continue`, which every transport hook of this plugin answers.
pub fn continue_hook() -> (o: HookOutcome)
    ensures
        o.action == HookAction::Continue,
{
    HookOutcome { action: HookAction::Continue }
}

/// The time to live of an assignment when the configuration names none.
pub fn default_ttl_secs() -> (t: u64)
    ensures
        t == 900,
{
    900
}

/// What normalizing a configured value gives: the value trimmed, or the
/// message `{field} cannot be empty` when nothing is left.
pub open spec fn normalized(value: Seq<char>, field: Seq<char>) -> Result<Seq<char>, Seq<char>> {
    if trim(value).len() == 0 {
        Err(field + " cannot be empty"@)
    } else {
        Ok(trim(value))
    }
}

/// Normalizing every value in order; the first failure wins.
pub open spec fn normalized_all(values: Seq<Seq<char>>, field: Seq<char>) -> Result<Seq<Seq<char>>, Seq<char>>
    decreases values.len(),
{
    if values.len() == 0 {
        Ok(Seq::empty())
    } else {
        match normalized_all(values.drop_last(), field) {
            Err(e) => Err(e),
            Ok(done) => match normalized(values.last(), field) {
                Err(e) => Err(e),
                Ok(v) => Ok(done.push(v)),
            },
        }
    }
}

/// Trims a configured value, refusing one that is blank.
pub fn normalize(value: &str, field: &str) -> (r: Result<String, PluginError>)
    ensures
        match normalized(value@, field@) {
            Ok(v) => r matches Ok(s) && s@ == v,
            Err(m) => r matches Err(e) && error_says(e, m),
        },
{
    let trimmed = trim_chars(&chars_of(value));
    if trimmed.len() == 0 {
        let mut msg = chars_of(field);
        push_str(&mut msg, " cannot be empty");
        return Err(plugin_error(string_of(&msg)));
    }
    Ok(string_of(&trimmed))
}

proof fn lemma_normalized_all_prefix(values: Seq<Seq<char>>, field: Seq<char>, i: int)
    requires
        0 <= i < values.len(),
    ensures
        values.take(i + 1).drop_last() == values.take(i),
        values.take(i + 1).last() == values[i],
{
    assert(values.take(i + 1).drop_last() =~= values.take(i));
}

/// Normalizes every backend of a pool, in order.
pub fn normalize_backends(values: &Vec<String>, field: &str) -> (r: Result<Vec<String>, PluginError>)
    ensures
        match normalized_all(string_views(values@), field@) {
            Ok(vs) => r matches Ok(out) && string_views(out@) == vs,
            Err(m) => r matches Err(e) && error_says(e, m),
        },
{
    let ghost views = string_views(values@);
    let mut out: Vec<String> = Vec::new();
    let mut i: usize = 0;
    assert(views.take(0).len() == 0);
    assert(string_views(out@) =~= Seq::<Seq<char>>::empty());
    while i < values.len()
        invariant
            i <= values.len(),
            views == string_views(values@),
            normalized_all(views.take(i as int), field@) == Ok::<Seq<Seq<char>>, Seq<char>>(string_views(out@)),
        decreases values.len() - i,
    {
        proof {
            lemma_normalized_all_prefix(views, field@, i as int);
        }
        match normalize(values[i].as_str(), field) {
            Ok(v) => {
                proof {
                    crate::text::lemma_string_views_push(out@, v);
                }
                out.push(v);
            },
            Err(e) => {
                proof {
                    lemma_normalized_all_err_extends(views, field@, i as int + 1);
                }
                return Err(e);
            },
        }
        i = i + 1;
    }
    assert(views.take(i as int) =~= views);
    Ok(out)
}

proof fn lemma_normalized_all_err_extends(values: Seq<Seq<char>>, field: Seq<char>, i: int)
    requires
        0 <= i <= values.len(),
        normalized_all(values.take(i), field) is Err,
    ensures
        normalized_all(values, field) == normalized_all(values.take(i), field),
    decreases values.len() - i,
{
    if i < values.len() {
        assert(values.take(i + 1).drop_last() =~= values.take(i));
        lemma_normalized_all_err_extends(values, field, i + 1);
    } else {
        assert(values.take(i) =~= values);
    }
}

} // verus!

verus! {

/// One listener section of the configuration file.
#[derive(Clone, Debug)]
pub struct ListenerConfig {
    pub name: String,
    pub backends: Vec<String>,
}

/// The configuration file as read.
#[derive(Clone, Debug)]
pub struct FileConfig {
    pub ttl_secs: u64,
    pub fallback_backends: Vec<String>,
    pub listeners: Vec<ListenerConfig>,
}

/// The normalized backend pool of one listener.
#[derive(Clone, Debug)]
pub struct ListenerPool {
    pub name: String,
    pub backends: Vec<String>,
}

/// The configuration in force: the time to live of an assignment, the
/// fallback pool and the pools of named listeners.
#[derive(Clone, Debug)]
pub struct LoadedConfig {
    pub ttl_secs: u64,
    pub fallback_backends: Vec<String>,
    pub listener_backends: Vec<ListenerPool>,
}

/// A listener section or pool as a name and backend texts.
pub type PoolView = (Seq<char>, Seq<Seq<char>>);

pub open spec fn listeners_view(ls: Seq<ListenerConfig>) -> Seq<PoolView> {
    Seq::new(ls.len(), |i: int| (ls[i].name@, string_views(ls[i].backends@)))
}

pub open spec fn pools_view(ps: Seq<ListenerPool>) -> Seq<PoolView> {
    Seq::new(ps.len(), |i: int| (ps[i].name@, string_views(ps[i].backends@)))
}

/// Some pool in `ps` is named `name`.
pub open spec fn names_contain(ps: Seq<PoolView>, name: Seq<char>) -> bool {
    exists|j: int| 0 <= j < ps.len() && (#[trigger] ps[j]).0 == name
}

/// Loading the listener sections in order: each name is normalized, must
/// not repeat an earlier one, and its backends are normalized under the
/// field name `listener {name}`. The first failure wins.
pub open spec fn loaded_listeners(ls: Seq<PoolView>) -> Result<Seq<PoolView>, Seq<char>>
    decreases ls.len(),
{
    if ls.len() == 0 {
        Ok(Seq::empty())
    } else {
        match loaded_listeners(ls.drop_last()) {
            Err(e) => Err(e),
            Ok(done) => match normalized(ls.last().0, "listener name"@) {
                Err(e) => Err(e),
                Ok(name) => if names_contain(done, name) {
                    Err("duplicate listener "@ + name)
                } else {
                    match normalized_all(ls.last().1, "listener "@ + name) {
                        Err(e) => Err(e),
                        Ok(bs) => Ok(done.push((name, bs))),
                    }
                },
            },
        }
    }
}

/// A loaded configuration as texts.
pub struct ConfigModel {
    pub ttl_secs: u64,
    pub fallback: Seq<Seq<char>>,
    pub listeners: Seq<PoolView>,
}

/// What loading a configuration gives: refused for a zero time to live,
/// then the listener sections, then the fallback pool, and refused when no
/// listener and no fallback backend is left.
pub open spec fn loaded_config(ttl_secs: u64, fallback: Seq<Seq<char>>, listeners: Seq<PoolView>) -> Result<
    ConfigModel,
    Seq<char>,
> {
    if ttl_secs == 0 {
        Err("ttl_secs must be greater than zero"@)
    } else {
        match loaded_listeners(listeners) {
            Err(e) => Err(e),
            Ok(lb) => match normalized_all(fallback, "fallback_backends"@) {
                Err(e) => Err(e),
                Ok(fb) => if lb.len() == 0 && fb.len() == 0 {
                    Err("sticky config must define at least one listener pool or fallback backends"@)
                } else {
                    Ok(ConfigModel { ttl_secs, fallback: fb, listeners: lb })
                },
            },
        }
    }
}

/// A well-formed configuration: a positive time to live, at least one
/// listener or fallback backend, no two listeners with one name, and no
/// empty name or backend.
pub open spec fn config_wf(m: ConfigModel) -> bool {
    &&& m.ttl_secs > 0
    &&& m.listeners.len() > 0 || m.fallback.len() > 0
    &&& pools_wf(m.listeners)
    &&& values_nonempty(m.fallback)
}

/// No two pools share a name, and no name or backend is empty.
pub open spec fn pools_wf(ps: Seq<PoolView>) -> bool {
    &&& forall|i: int, j: int| 0 <= i < j < ps.len() ==> (#[trigger] ps[i]).0 != (#[trigger] ps[j]).0
    &&& forall|i: int| 0 <= i < ps.len() ==> (#[trigger] ps[i]).0.len() > 0 && values_nonempty(ps[i].1)
}

/// No value is empty.
pub open spec fn values_nonempty(vs: Seq<Seq<char>>) -> bool {
    forall|i: int| 0 <= i < vs.len() ==> (#[trigger] vs[i]).len() > 0
}

proof fn lemma_normalized_all_nonempty(values: Seq<Seq<char>>, field: Seq<char>)
    ensures
        normalized_all(values, field) matches Ok(vs) ==> values_nonempty(vs),
    decreases values.len(),
{
    if values.len() > 0 {
        lemma_normalized_all_nonempty(values.drop_last(), field);
    }
}

proof fn lemma_loaded_listeners_wf(ls: Seq<PoolView>)
    ensures
        loaded_listeners(ls) matches Ok(lb) ==> pools_wf(lb),
    decreases ls.len(),
{
    if ls.len() > 0 {
        lemma_loaded_listeners_wf(ls.drop_last());
        if let Ok(done) = loaded_listeners(ls.drop_last()) {
            if let Ok(name) = normalized(ls.last().0, "listener name"@) {
                lemma_normalized_all_nonempty(ls.last().1, "listener "@ + name);
                if let Ok(lb) = loaded_listeners(ls) {
                    assert(lb == done.push((name, lb.last().1)));
                    assert forall|i: int, j: int| 0 <= i < j < lb.len() implies (#[trigger] lb[i]).0 != (#[trigger] lb[j]).0 by {
                        if j == lb.len() - 1 {
                            assert(done[i] == lb[i]);
                        } else {
                            assert(done[i] == lb[i] && done[j] == lb[j]);
                        }
                    }
                    assert forall|i: int| 0 <= i < lb.len() implies (#[trigger] lb[i]).0.len() > 0 && values_nonempty(lb[i].1) by {
                        if i < lb.len() - 1 {
                            assert(done[i] == lb[i]);
                        }
                    }
                }
            }
        }
    }
}

impl FileConfig {
    pub open spec fn outcome(&self) -> Result<ConfigModel, Seq<char>> {
        loaded_config(self.ttl_secs, string_views(self.fallback_backends@), listeners_view(self.listeners@))
    }
}

impl LoadedConfig {
    pub open spec fn model(&self) -> ConfigModel {
        ConfigModel {
            ttl_secs: self.ttl_secs,
            fallback: string_views(self.fallback_backends@),
            listeners: pools_view(self.listener_backends@),
        }
    }
}

} // verus!

verus! {

proof fn lemma_loaded_listeners_err_extends(ls: Seq<PoolView>, i: int)
    requires
        0 <= i <= ls.len(),
        loaded_listeners(ls.take(i)) is Err,
    ensures
        loaded_listeners(ls) == loaded_listeners(ls.take(i)),
    decreases ls.len() - i,
{
    if i < ls.len() {
        assert(ls.take(i + 1).drop_last() =~= ls.take(i));
        lemma_loaded_listeners_err_extends(ls, i + 1);
    } else {
        assert(ls.take(i) =~= ls);
    }
}

proof fn lemma_pools_view_push(ps: Seq<ListenerPool>, p: ListenerPool)
    ensures
        pools_view(ps.push(p)) == pools_view(ps).push((p.name@, string_views(p.backends@))),
{
    assert(pools_view(ps.push(p)) =~= pools_view(ps).push((p.name@, string_views(p.backends@))));
}

/// Whether some pool is named `name`.
fn has_pool_named(pools: &Vec<ListenerPool>, name: &String) -> (b: bool)
    ensures
        b == names_contain(pools_view(pools@), name@),
{
    let ghost pv = pools_view(pools@);
    let mut j: usize = 0;
    while j < pools.len()
        invariant
            j <= pools.len(),
            pv == pools_view(pools@),
            forall|k: int| 0 <= k < j ==> (#[trigger] pv[k]).0 != name@,
        decreases pools.len() - j,
    {
        if pools[j].name == *name {
            assert(pv[j as int].0 == name@);
            return true;
        }
        j = j + 1;
    }
    false
}

impl LoadedConfig {
    /// Loads the configuration file: the listener sections in order, then
    /// the fallback pool. Refused, with the message of the first problem,
    /// for a zero time to live, a blank listener name, a repeated listener,
    /// a blank backend, or when no listener and no fallback backend is left.
    /// A loaded configuration is well-formed.
    pub fn try_from(value: FileConfig) -> (r: Result<LoadedConfig, PluginError>)
        ensures
            match value.outcome() {
                Ok(m) => r matches Ok(c) && c.model() == m,
                Err(t) => r matches Err(e) && error_says(e, t),
            },
            r matches Ok(c) ==> config_wf(c.model()),
    {
        if value.ttl_secs == 0 {
            return Err(plugin_error(string_of(&chars_of("ttl_secs must be greater than zero"))));
        }
        let ghost lv = listeners_view(value.listeners@);
        let mut pools: Vec<ListenerPool> = Vec::new();
        let mut i: usize = 0;
        assert(lv.take(0).len() == 0);
        assert(pools_view(pools@) =~= Seq::<PoolView>::empty());
        while i < value.listeners.len()
            invariant
                i <= value.listeners.len(),
                value.ttl_secs != 0,
                lv == listeners_view(value.listeners@),
                loaded_listeners(lv.take(i as int)) == Ok::<Seq<PoolView>, Seq<char>>(pools_view(pools@)),
            decreases value.listeners.len() - i,
        {
            proof {
                assert(lv.take(i + 1).drop_last() =~= lv.take(i as int));
                assert(lv.take(i + 1).last() == lv[i as int]);
            }
            let listener = &value.listeners[i];
            let name = match normalize(listener.name.as_str(), "listener name") {
                Ok(n) => n,
                Err(e) => {
                    proof {
                        assert(lv[i as int].0 == listener.name@);
                        assert(loaded_listeners(lv.take(i + 1)) == Err::<Seq<PoolView>, Seq<char>>(
                            normalized(listener.name@, "listener name"@)->Err_0,
                        ));
                        lemma_loaded_listeners_err_extends(lv, i + 1);
                        assert(value.outcome() == Err::<ConfigModel, Seq<char>>(loaded_listeners(lv)->Err_0));
                    }
                    return Err(e);
                },
            };
            if has_pool_named(&pools, &name) {
                let mut msg = chars_of("duplicate listener ");
                push_chars(&mut msg, &chars_of(name.as_str()));
                proof {
                    assert(lv[i as int].0 == listener.name@);
                    assert(loaded_listeners(lv.take(i + 1)) == Err::<Seq<PoolView>, Seq<char>>("duplicate listener "@ + name@));
                    lemma_loaded_listeners_err_extends(lv, i + 1);
                    assert(value.outcome() == Err::<ConfigModel, Seq<char>>(loaded_listeners(lv)->Err_0));
                }
                return Err(plugin_error(string_of(&msg)));
            }
            let mut field = chars_of("listener ");
            push_chars(&mut field, &chars_of(name.as_str()));
            let field = string_of(&field);
            let backends = match normalize_backends(&listener.backends, field.as_str()) {
                Ok(b) => b,
                Err(e) => {
                    proof {
                        lemma_loaded_listeners_err_extends(lv, i + 1);
                    }
                    return Err(e);
                },
            };
            let pool = ListenerPool { name, backends };
            proof {
                lemma_pools_view_push(pools@, pool);
            }
            pools.push(pool);
            i = i + 1;
        }
        assert(lv.take(i as int) =~= lv);
        let fallback = normalize_backends(&value.fallback_backends, "fallback_backends")?;
        if pools.len() == 0 && fallback.len() == 0 {
            return Err(
                plugin_error(
                    string_of(
                        &chars_of(
                            "sticky config must define at least one listener pool or fallback backends",
                        ),
                    ),
                ),
            );
        }
        proof {
            lemma_loaded_listeners_wf(lv);
            lemma_normalized_all_nonempty(string_views(value.fallback_backends@), "fallback_backends"@);
        }
        Ok(LoadedConfig { ttl_secs: value.ttl_secs, fallback_backends: fallback, listener_backends: pools })
    }
}

} // verus!

verus! {

/// The first pool at or after `i` named `name`.
pub open spec fn pool_position(ps: Seq<ListenerPool>, name: Seq<char>, i: int) -> Option<int>
    decreases ps.len() - i,
{
    if i < 0 || i >= ps.len() {
        None
    } else if ps[i].name@ == name {
        Some(i)
    } else {
        pool_position(ps, name, i + 1)
    }
}

impl LoadedConfig {
    /// The backends for `listener`: its own pool when it has one, else the
    /// fallback pool.
    pub open spec fn pool(&self, listener: Seq<char>) -> Seq<String> {
        match pool_position(self.listener_backends@, listener, 0) {
            Some(j) => self.listener_backends@[j].backends@,
            None => self.fallback_backends@,
        }
    }

    /// The backends for `listener`: its own pool when it has one, else the
    /// fallback pool.
    pub fn pool_for_listener(&self, listener: &str) -> (r: &[String])
        ensures
            r@ == self.pool(listener@),
    {
        let name = string_of(&chars_of(listener));
        let mut j: usize = 0;
        while j < self.listener_backends.len()
            invariant
                j <= self.listener_backends.len(),
                name@ == listener@,
                pool_position(self.listener_backends@, listener@, 0) == pool_position(
                    self.listener_backends@,
                    listener@,
                    j as int,
                ),
            decreases self.listener_backends.len() - j,
        {
            if self.listener_backends[j].name == name {
                return self.listener_backends[j].backends.as_slice();
            }
            j = j + 1;
        }
        self.fallback_backends.as_slice()
    }
}

/// A client address, of which only the IP takes part in the sticky key.
#[derive(Clone, Copy, Debug, PartialEq, Eq)]
pub enum ClientIp {
    V4([u8; 4]),
    V6([u8; 16]),
}

impl View for ClientIp {
    /// Whether the address is IPv6, and its octets.
    type V = (bool, Seq<u8>);

    open spec fn view(&self) -> (bool, Seq<u8>) {
        match self {
            ClientIp::V4(a) => (false, a@),
            ClientIp::V6(a) => (true, a@),
        }
    }
}

impl ClientIp {
    /// Whether two addresses are the same IP.
    pub fn same_ip(&self, other: &ClientIp) -> (b: bool)
        ensures
            b == (self@ == other@),
    {
        match (self, other) {
            (ClientIp::V4(a), ClientIp::V4(c)) => {
                let mut i: usize = 0;
                while i < 4
                    invariant
                        i <= 4,
                        self@ == (false, a@),
                        other@ == (false, c@),
                        forall|j: int| 0 <= j < i ==> a@[j] == c@[j],
                    decreases 4 - i,
                {
                    if a[i] != c[i] {
                        assert(a@[i as int] != c@[i as int]);
                        return false;
                    }
                    i = i + 1;
                }
                assert(a@ =~= c@);
                true
            },
            (ClientIp::V6(a), ClientIp::V6(c)) => {
                let mut i: usize = 0;
                while i < 16
                    invariant
                        i <= 16,
                        self@ == (true, a@),
                        other@ == (true, c@),
                        forall|j: int| 0 <= j < i ==> a@[j] == c@[j],
                    decreases 16 - i,
                {
                    if a[i] != c[i] {
                        assert(a@[i as int] != c@[i as int]);
                        return false;
                    }
                    i = i + 1;
                }
                assert(a@ =~= c@);
                true
            },
            _ => false,
        }
    }

    /// The address octets, in network order.
    pub open spec fn octets_view(&self) -> Seq<u8> {
        self@.1
    }

    /// The address octets, in network order.
    pub fn octets(&self) -> (v: Vec<u8>)
        ensures
            v@ == self.octets_view(),
    {
        let mut v: Vec<u8> = Vec::new();
        match self {
            ClientIp::V4(a) => {
                let mut i: usize = 0;
                while i < 4
                    invariant
                        i <= 4,
                        v@ == a@.take(i as int),
                    decreases 4 - i,
                {
                    v.push(a[i]);
                    i = i + 1;
                    assert(v@ =~= a@.take(i as int));
                }
                assert(a@.take(4) =~= a@);
            },
            ClientIp::V6(a) => {
                let mut i: usize = 0;
                while i < 16
                    invariant
                        i <= 16,
                        v@ == a@.take(i as int),
                    decreases 16 - i,
                {
                    v.push(a[i]);
                    i = i + 1;
                    assert(v@ =~= a@.take(i as int));
                }
                assert(a@.take(16) =~= a@);
            },
        }
        v
    }
}

/// The bytes hashed to place a client: the listener name in UTF-8, then the
/// address octets.
pub open spec fn sticky_key_bytes(listener: Seq<char>, octets: Seq<u8>) -> Seq<u8> {
    vstd::utf8::encode_utf8(listener) + octets
}

/// What `xxhash_rust::xxh3::xxh3_64` returns for `input`.
pub uninterp spec fn xxh3_64_of(input: Seq<u8>) -> u64;

/// `xxhash_rust::xxh3::xxh3_64`: the 64-bit XXH3 digest of `input` with the
/// default secret and no seed, the same digest as the crate's streaming
/// `Xxh3` fed the same bytes. The contract only ties the digest to the input
/// by name.
#[verifier::external_body]
fn xxh3_hash(input: &[u8]) -> (h: u64)
    ensures
        h == xxh3_64_of(input@),
{
    xxhash_rust::xxh3::xxh3_64(input)
}

/// The position that a digest selects in a pool of `n` backends: the digest
/// as a `usize`, modulo `n`.
pub open spec fn pick_index(digest: u64, n: int) -> int {
    ((digest as usize) % (n as usize)) as int
}

/// The key bytes of a listener and client.
pub fn sticky_key(listener: &str, client_ip: &ClientIp) -> (v: Vec<u8>)
    ensures
        v@ == sticky_key_bytes(listener@, client_ip.octets_view()),
{
    let mut v = crate::plugins::bytes_of(listener);
    let mut o = client_ip.octets();
    v.append(&mut o);
    v
}

/// The backend that a digest selects in a non-empty pool.
pub fn backend_for_digest(digest: u64, pool: &[String]) -> (b: String)
    requires
        pool@.len() > 0,
    ensures
        0 <= pick_index(digest, pool@.len() as int) < pool@.len(),
        b == pool@[pick_index(digest, pool@.len() as int)],
{
    let index = (digest as usize) % pool.len();
    pool[index].clone()
}

/// The backend for a listener and client in a non-empty pool: placed by the
/// XXH3 digest of the key bytes, so the same listener, client IP and pool
/// always give the same backend.
pub fn choose_backend(listener: &str, client_ip: ClientIp, pool: &[String]) -> (b: String)
    requires
        pool@.len() > 0,
    ensures
        0 <= pick_index(xxh3_64_of(sticky_key_bytes(listener@, client_ip.octets_view())), pool@.len() as int) < pool@.len(),
        b == pool@[pick_index(xxh3_64_of(sticky_key_bytes(listener@, client_ip.octets_view())), pool@.len() as int)],
{
    let key = sticky_key(listener, &client_ip);
    let digest = xxh3_hash(key.as_slice());
    backend_for_digest(digest, pool)
}

} // verus!

verus! {

/// A remembered assignment of a backend to a listener and client IP, until
/// `expires_at` (nanoseconds on the caller's monotonic clock).
#[derive(Clone, Debug)]
pub struct StickyEntry {
    pub listener: String,
    pub client_ip: ClientIp,
    pub backend: String,
    pub expires_at: u128,
}

impl StickyEntry {
    /// A copy of this entry.
    pub fn duplicate(&self) -> (e: StickyEntry)
        ensures
            e == *self,
    {
        StickyEntry {
            listener: self.listener.clone(),
            client_ip: self.client_ip,
            backend: self.backend.clone(),
            expires_at: self.expires_at,
        }
    }
}

/// A sticky key: the listener name and the client IP.
pub type StickyKey = (Seq<char>, (bool, Seq<u8>));

pub open spec fn entry_key(e: StickyEntry) -> StickyKey {
    (e.listener@, e.client_ip@)
}

pub open spec fn entry_value(e: StickyEntry) -> (Seq<char>, u128) {
    (e.backend@, e.expires_at)
}

/// No two entries share a key.
pub open spec fn keys_distinct(s: Seq<StickyEntry>) -> bool {
    forall|i: int, j: int| 0 <= i < j < s.len() ==> entry_key(#[trigger] s[i]) != entry_key(#[trigger] s[j])
}

/// The assignments as a map from key to backend and expiry.
pub open spec fn cache_map(s: Seq<StickyEntry>) -> Map<StickyKey, (Seq<char>, u128)> {
    Map::new(
        |k: StickyKey| exists|i: int| 0 <= i < s.len() && entry_key(s[i]) == k,
        |k: StickyKey| entry_value(s[choose|i: int| 0 <= i < s.len() && entry_key(s[i]) == k]),
    )
}

/// The assignments that have not expired at `now`.
pub open spec fn live_map(m: Map<StickyKey, (Seq<char>, u128)>, now: u64) -> Map<StickyKey, (Seq<char>, u128)> {
    Map::new(|k: StickyKey| m.dom().contains(k) && m[k].1 > now as u128, |k: StickyKey| m[k])
}

proof fn lemma_cache_map_at(s: Seq<StickyEntry>, i: int)
    requires
        keys_distinct(s),
        0 <= i < s.len(),
    ensures
        cache_map(s).dom().contains(entry_key(s[i])),
        cache_map(s)[entry_key(s[i])] == entry_value(s[i]),
{
    let k = entry_key(s[i]);
    assert(cache_map(s).dom().contains(k));
    let j = choose|j: int| 0 <= j < s.len() && entry_key(s[j]) == k;
    if j != i {
        if j < i {
            assert(entry_key(s[j]) != entry_key(s[i]));
        } else {
            assert(entry_key(s[i]) != entry_key(s[j]));
        }
    }
}

proof fn lemma_cache_map_push(s: Seq<StickyEntry>, e: StickyEntry)
    requires
        keys_distinct(s),
        !cache_map(s).dom().contains(entry_key(e)),
    ensures
        keys_distinct(s.push(e)),
        cache_map(s.push(e)) == cache_map(s).insert(entry_key(e), entry_value(e)),
{
    let t = s.push(e);
    assert forall|i: int, j: int| 0 <= i < j < t.len() implies entry_key(#[trigger] t[i]) != entry_key(#[trigger] t[j]) by {
        if j == s.len() {
            assert(t[i] == s[i]);
            if entry_key(s[i]) == entry_key(e) {
                assert(cache_map(s).dom().contains(entry_key(e)));
            }
        } else {
            assert(t[i] == s[i] && t[j] == s[j]);
        }
    }
    let m = cache_map(s).insert(entry_key(e), entry_value(e));
    assert forall|k: StickyKey| #[trigger] cache_map(t).dom().contains(k) <==> m.dom().contains(k) by {
        if cache_map(t).dom().contains(k) {
            let i = choose|i: int| 0 <= i < t.len() && entry_key(t[i]) == k;
            if i < s.len() {
                assert(t[i] == s[i]);
                assert(cache_map(s).dom().contains(k));
            }
        }
        if cache_map(s).dom().contains(k) {
            let i = choose|i: int| 0 <= i < s.len() && entry_key(s[i]) == k;
            assert(t[i] == s[i]);
            assert(cache_map(t).dom().contains(k));
        }
        if k == entry_key(e) {
            assert(t[s.len() as int] == e);
            assert(cache_map(t).dom().contains(k));
        }
    }
    assert forall|k: StickyKey| #[trigger] cache_map(t).dom().contains(k) implies cache_map(t)[k] == m[k] by {
        let i = choose|i: int| 0 <= i < t.len() && entry_key(t[i]) == k;
        lemma_cache_map_at(t, i);
        if i < s.len() {
            assert(t[i] == s[i]);
            lemma_cache_map_at(s, i);
        }
    }
    assert(cache_map(t) =~= m);
}

proof fn lemma_cache_map_update(s: Seq<StickyEntry>, i: int, e: StickyEntry)
    requires
        keys_distinct(s),
        0 <= i < s.len(),
        entry_key(s[i]) == entry_key(e),
    ensures
        keys_distinct(s.update(i, e)),
        cache_map(s.update(i, e)) == cache_map(s).insert(entry_key(e), entry_value(e)),
{
    let t = s.update(i, e);
    assert forall|a: int, b: int| 0 <= a < b < t.len() implies entry_key(#[trigger] t[a]) != entry_key(#[trigger] t[b]) by {
        assert(entry_key(t[a]) == entry_key(s[a]));
        assert(entry_key(t[b]) == entry_key(s[b]));
    }
    let m = cache_map(s).insert(entry_key(e), entry_value(e));
    assert forall|k: StickyKey| #[trigger] cache_map(t).dom().contains(k) <==> m.dom().contains(k) by {
        if cache_map(t).dom().contains(k) {
            let a = choose|a: int| 0 <= a < t.len() && entry_key(t[a]) == k;
            assert(entry_key(t[a]) == entry_key(s[a]));
            assert(cache_map(s).dom().contains(k));
        }
        if cache_map(s).dom().contains(k) {
            let a = choose|a: int| 0 <= a < s.len() && entry_key(s[a]) == k;
            assert(entry_key(t[a]) == entry_key(s[a]));
            assert(cache_map(t).dom().contains(k));
        }
    }
    assert forall|k: StickyKey| #[trigger] cache_map(t).dom().contains(k) implies cache_map(t)[k] == m[k] by {
        let a = choose|a: int| 0 <= a < t.len() && entry_key(t[a]) == k;
        lemma_cache_map_at(t, a);
        if a != i {
            assert(t[a] == s[a]);
            lemma_cache_map_at(s, a);
        }
    }
    assert(cache_map(t) =~= m);
}

/// The entries of `s` that have not expired at `now`, in order.
fn retain_live(s: &Vec<StickyEntry>, now: u64) -> (kept: Vec<StickyEntry>)
    requires
        keys_distinct(s@),
    ensures
        keys_distinct(kept@),
        cache_map(kept@) == live_map(cache_map(s@), now),
{
    let mut kept: Vec<StickyEntry> = Vec::new();
    let mut i: usize = 0;
    assert(cache_map(kept@) =~= live_map(cache_map(s@.take(0)), now));
    while i < s.len()
        invariant
            i <= s.len(),
            keys_distinct(s@),
            keys_distinct(kept@),
            cache_map(kept@) == live_map(cache_map(s@.take(i as int)), now),
        decreases s.len() - i,
    {
        let ghost before = s@.take(i as int);
        let ghost e = s@[i as int];
        proof {
            assert(s@.take(i + 1) =~= before.push(e));
            assert(keys_distinct(before));
            if cache_map(before).dom().contains(entry_key(e)) {
                let j = choose|j: int| 0 <= j < before.len() && entry_key(before[j]) == entry_key(e);
                assert(before[j] == s@[j]);
            }
            lemma_cache_map_push(before, e);
        }
        if s[i].expires_at > now as u128 {
            let d = s[i].duplicate();
            proof {
                lemma_cache_map_push(kept@, d);
                assert(live_map(cache_map(before.push(e)), now) =~= live_map(cache_map(before), now).insert(
                    entry_key(e),
                    entry_value(e),
                ));
            }
            kept.push(d);
        } else {
            assert(live_map(cache_map(before.push(e)), now) =~= live_map(cache_map(before), now));
        }
        i = i + 1;
    }
    assert(s@.take(i as int) =~= s@);
    kept
}

/// The position of the entry for a listener and client, if there is one.
fn find_entry(s: &Vec<StickyEntry>, listener: &String, ip: &ClientIp) -> (r: Option<usize>)
    requires
        keys_distinct(s@),
    ensures
        match r {
            Some(j) => j < s@.len() && entry_key(s@[j as int]) == (listener@, ip@),
            None => !cache_map(s@).dom().contains((listener@, ip@)),
        },
{
    let mut j: usize = 0;
    while j < s.len()
        invariant
            j <= s.len(),
            forall|a: int| 0 <= a < j ==> entry_key(#[trigger] s@[a]) != (listener@, ip@),
        decreases s.len() - j,
    {
        if s[j].listener == *listener && s[j].client_ip.same_ip(ip) {
            return Some(j);
        }
        j = j + 1;
    }
    None
}

/// Some backend of `pool` reads `b`.
pub open spec fn pool_has(pool: Seq<String>, b: Seq<char>) -> bool {
    exists|j: int| 0 <= j < pool.len() && (#[trigger] pool[j])@ == b
}

fn pool_contains(pool: &[String], b: &String) -> (r: bool)
    ensures
        r == pool_has(pool@, b@),
{
    let mut j: usize = 0;
    while j < pool.len()
        invariant
            j <= pool@.len(),
            forall|a: int| 0 <= a < j ==> (#[trigger] pool@[a])@ != b@,
        decreases pool@.len() - j,
    {
        if pool[j] == *b {
            assert(pool@[j as int]@ == b@);
            return true;
        }
        j = j + 1;
    }
    false
}

/// The plugin's shared state: the configuration and the assignments.
pub struct SharedState {
    pub config: LoadedConfig,
    pub assignments: Vec<StickyEntry>,
}

/// The time to live in nanoseconds.
pub open spec fn ttl_nanos(ttl_secs: u64) -> int {
    ttl_secs * 1_000_000_000
}

/// What selecting a backend for `listener` and the client `ip` at `now`
/// does. Without backends for the listener it fails with `no backends
/// configured for listener {listener}` and changes nothing. Otherwise the
/// expired assignments are dropped; a live assignment whose backend is
/// still in the pool is answered as it stands; else the backend placed by
/// the key's digest is answered and assigned until `now` plus the time to
/// live.
pub open spec fn select_post(
    s0: SharedState,
    s1: SharedState,
    listener: Seq<char>,
    ip: ClientIp,
    now: u64,
    r: Result<String, PluginError>,
) -> bool {
    let pool = s0.config.pool(listener);
    if pool.len() == 0 {
        &&& r matches Err(e) && error_says(e, "no backends configured for listener "@ + listener)
        &&& s1 == s0
    } else {
        let live = live_map(cache_map(s0.assignments@), now);
        let key = (listener, ip@);
        &&& s1.config == s0.config
        &&& keys_distinct(s1.assignments@)
        &&& r matches Ok(b) && if live.dom().contains(key) && pool_has(pool, live[key].0) {
            &&& b@ == live[key].0
            &&& cache_map(s1.assignments@) == live
        } else {
            &&& 0 <= pick_index(xxh3_64_of(sticky_key_bytes(listener, ip@.1)), pool.len() as int) < pool.len()
            &&& b == pool[pick_index(xxh3_64_of(sticky_key_bytes(listener, ip@.1)), pool.len() as int)]
            &&& cache_map(s1.assignments@) == live.insert(
                key,
                (b@, (now + ttl_nanos(s0.config.ttl_secs)) as u128),
            )
        }
    }
}

impl SharedState {
    /// A state with no assignments.
    pub fn new(config: LoadedConfig) -> (s: SharedState)
        ensures
            s.config == config,
            s.assignments@.len() == 0,
            keys_distinct(s.assignments@),
            cache_consistent(s.config, cache_map(s.assignments@)),
    {
        SharedState { config, assignments: Vec::new() }
    }

    /// Selects the backend for `listener` and `client_ip` at `now`
    /// (nanoseconds on a monotonic clock), remembering it for the time to
    /// live. See `select_post`.
    pub fn select_backend(&mut self, listener: &str, client_ip: ClientIp, now: u64) -> (r: Result<String, PluginError>)
        requires
            keys_distinct(old(self).assignments@),
        ensures
            select_post(*old(self), *final(self), listener@, client_ip, now, r),
    {
        let pool = self.config.pool_for_listener(listener);
        if pool.len() == 0 {
            let mut msg = chars_of("no backends configured for listener ");
            push_chars(&mut msg, &chars_of(listener));
            return Err(plugin_error(string_of(&msg)));
        }
        let ghost live = live_map(cache_map(self.assignments@), now);
        let mut kept = retain_live(&self.assignments, now);
        let key_listener = string_of(&chars_of(listener));
        let found = find_entry(&kept, &key_listener, &client_ip);
        if let Some(j) = found {
            if pool_contains(pool, &kept[j].backend) {
                proof {
                    lemma_cache_map_at(kept@, j as int);
                }
                let b = kept[j].backend.clone();
                self.assignments = kept;
                return Ok(b);
            }
        }
        let backend = choose_backend(listener, client_ip, pool);
        let ttl = self.config.ttl_secs;
        assert(ttl as u128 * 1_000_000_000u128 <= 0xffff_ffff_ffff_ffffu128 * 1_000_000_000u128) by (nonlinear_arith)
            requires
                ttl <= 0xffff_ffff_ffff_ffffu64,
        ;
        let expires_at = now as u128 + ttl as u128 * 1_000_000_000u128;
        let entry = StickyEntry { listener: key_listener, client_ip, backend: backend.clone(), expires_at };
        match found {
            Some(j) => {
                proof {
                    lemma_cache_map_update(kept@, j as int, entry);
                }
                kept.set(j, entry);
            },
            None => {
                proof {
                    lemma_cache_map_push(kept@, entry);
                }
                kept.push(entry);
            },
        }
        self.assignments = kept;
        Ok(backend)
    }
}

} // verus!

verus! {

/// The backend text that the digest of a key places in its listener's pool.
pub open spec fn placed_backend(config: LoadedConfig, listener: Seq<char>, octets: Seq<u8>) -> Seq<char> {
    let pool = config.pool(listener);
    pool[pick_index(xxh3_64_of(sticky_key_bytes(listener, octets)), pool.len() as int)]@
}

/// Every assignment holds the backend that its key's digest places in the
/// non-empty pool of its listener.
pub open spec fn cache_consistent(config: LoadedConfig, m: Map<StickyKey, (Seq<char>, u128)>) -> bool {
    forall|k: StickyKey|
        #[trigger] m.dom().contains(k) ==> config.pool(k.0).len() > 0 && m[k].0 == placed_backend(
            config,
            k.0,
            k.1.1,
        )
}

/// A selection from a consistent cache answers the backend that the key's
/// digest places in the listener's pool, whatever the cache held, and
/// leaves the cache consistent.
pub proof fn lemma_selection_follows_placement(
    s0: SharedState,
    s1: SharedState,
    listener: Seq<char>,
    ip: ClientIp,
    now: u64,
    r: Result<String, PluginError>,
)
    requires
        select_post(s0, s1, listener, ip, now, r),
        cache_consistent(s0.config, cache_map(s0.assignments@)),
        s0.config.pool(listener).len() > 0,
    ensures
        cache_consistent(s1.config, cache_map(s1.assignments@)),
        r matches Ok(b) && b@ == placed_backend(s0.config, listener, ip@.1),
{
    let m0 = cache_map(s0.assignments@);
    let live = live_map(m0, now);
    let key = (listener, ip@);
    let m1 = cache_map(s1.assignments@);
    if live.dom().contains(key) && pool_has(s0.config.pool(listener), live[key].0) {
        assert(m0.dom().contains(key));
        assert forall|k: StickyKey| #[trigger] m1.dom().contains(k) implies s1.config.pool(k.0).len() > 0
            && m1[k].0 == placed_backend(s1.config, k.0, k.1.1) by {
            assert(m0.dom().contains(k));
        }
    } else {
        assert forall|k: StickyKey| #[trigger] m1.dom().contains(k) implies s1.config.pool(k.0).len() > 0
            && m1[k].0 == placed_backend(s1.config, k.0, k.1.1) by {
            if k != key {
                assert(live.dom().contains(k));
                assert(m0.dom().contains(k));
            }
        }
    }
}

/// Two selections for one listener and client IP, from consistent caches
/// under the same configuration, answer the same backend: TCP and UDP
/// share the backend of a client, and a client keeps its backend.
pub proof fn lemma_selections_agree(
    a0: SharedState,
    a1: SharedState,
    b0: SharedState,
    b1: SharedState,
    listener: Seq<char>,
    ip: ClientIp,
    now_a: u64,
    now_b: u64,
    ra: Result<String, PluginError>,
    rb: Result<String, PluginError>,
)
    requires
        select_post(a0, a1, listener, ip, now_a, ra),
        select_post(b0, b1, listener, ip, now_b, rb),
        a0.config == b0.config,
        cache_consistent(a0.config, cache_map(a0.assignments@)),
        cache_consistent(b0.config, cache_map(b0.assignments@)),
    ensures
        ra is Ok <==> rb is Ok,
        ra matches Ok(x) ==> rb matches Ok(y) && x@ == y@,
{
    if a0.config.pool(listener).len() > 0 {
        lemma_selection_follows_placement(a0, a1, listener, ip, now_a, ra);
        lemma_selection_follows_placement(b0, b1, listener, ip, now_b, rb);
    }
}

} // verus!

verus! {

/// The environment variable that names the configuration file.
pub const CONFIG_ENV: &'static str = "VAKIL_L4_STICKY_CONFIG";

/// The file name of the configuration in the plugin directory.
pub const CONFIG_FILE_NAME: &'static str = "sticky-l4.toml";

/// The value of the first entry at or after `i` named `name`.
pub open spec fn env_lookup(entries: Seq<KVPair>, name: Seq<char>, i: int) -> Option<Seq<char>>
    decreases entries.len() - i,
{
    if i < 0 || i >= entries.len() {
        None
    } else if entries[i].name@ == name {
        Some(entries[i].value@)
    } else {
        env_lookup(entries, name, i + 1)
    }
}

/// The value of the first variable named `name` in the init context's
/// environment snapshot.
pub fn env_value(ctx: &PluginInitContext, name: &str) -> (r: Option<String>)
    ensures
        match env_lookup(ctx.env.entries@, name@, 0) {
            Some(v) => r matches Some(s) && s@ == v,
            None => r is None,
        },
{
    let wanted = string_of(&chars_of(name));
    let mut i: usize = 0;
    while i < ctx.env.entries.len()
        invariant
            i <= ctx.env.entries.len(),
            wanted@ == name@,
            env_lookup(ctx.env.entries@, name@, 0) == env_lookup(ctx.env.entries@, name@, i as int),
        decreases ctx.env.entries.len() - i,
    {
        if ctx.env.entries[i].name == wanted {
            return Some(ctx.env.entries[i].value.clone());
        }
        i = i + 1;
    }
    None
}

/// What `Path::new(base).join(child)` gives on Unix, as text: an absolute
/// `child` replaces `base`; otherwise `child` follows `base`, with a `/`
/// between them unless `base` is empty or already ends in `/`.
pub open spec fn path_joined(base: Seq<char>, child: Seq<char>) -> Seq<char> {
    if child.len() > 0 && child[0] == '/' {
        child
    } else if base.len() == 0 || base.last() == '/' {
        base + child
    } else {
        base + seq!['/'] + child
    }
}

/// `Path::new(base).join(child)` as text on Unix: [`path_joined`].
fn path_join(base: &str, child: &str) -> (r: String)
    ensures
        r@ == path_joined(base@, child@),
{
    let c = chars_of(child);
    if c.len() > 0 && c[0] == '/' {
        return string_of(&c);
    }
    let b = chars_of(base);
    let mut out: Vec<char> = Vec::new();
    push_str(&mut out, base);
    if !(b.len() == 0 || b[b.len() - 1] == '/') {
        out.push('/');
    }
    push_str(&mut out, child);
    string_of(&out)
}

/// The configuration path: the variable `VAKIL_L4_STICKY_CONFIG`, else
/// `sticky-l4.toml` in the plugin directory, else `sticky-l4.toml`.
pub open spec fn config_path(ctx: PluginInitContext) -> Seq<char> {
    match env_lookup(ctx.env.entries@, CONFIG_ENV@, 0) {
        Some(p) => p,
        None => match ctx.plugin_dir {
            Some(d) => path_joined(d@, CONFIG_FILE_NAME@),
            None => CONFIG_FILE_NAME@,
        },
    }
}

/// Where the configuration file is read from.
pub fn resolve_config_path(ctx: &PluginInitContext) -> (path: String)
    ensures
        path@ == config_path(*ctx),
{
    if let Some(p) = env_value(ctx, CONFIG_ENV) {
        return p;
    }
    match &ctx.plugin_dir {
        Some(d) => path_join(d.as_str(), CONFIG_FILE_NAME),
        None => string_of(&chars_of(CONFIG_FILE_NAME)),
    }
}

/// The text of an error: its message, or `unknown plugin error`.
pub fn plugin_error_message(err: &PluginError) -> (s: String)
    ensures
        s@ == match err.message {
            Some(m) => m@,
            None => "unknown plugin error"@,
        },
{
    match &err.message {
        Some(m) => m.clone(),
        None => string_of(&chars_of("unknown plugin error")),
    }
}

/// What reading a backend `host:port` gives: split at the last `:`, the
/// port parsed as a `u16`.
pub open spec fn backend_address(v: Seq<char>) -> Result<(Seq<char>, u16), Seq<char>> {
    match last_index_of(v, ':') {
        None => Err("invalid backend address "@ + v),
        Some(i) => match parse_u16(v.subrange(i + 1, v.len() as int)) {
            None => Err("invalid backend port "@ + v),
            Some(p) => Ok((v.subrange(0, i), p)),
        },
    }
}

/// Reads a backend `host:port` as a socket address.
pub fn backend_to_socket_address(value: &str) -> (r: Result<SocketAddress, PluginError>)
    ensures
        match backend_address(value@) {
            Ok((h, p)) => r matches Ok(a) && a.host@ == h && a.port == p,
            Err(m) => r matches Err(e) && error_says(e, m),
        },
{
    let v = chars_of(value);
    let i = match rfind_char(&v, ':') {
        Some(i) => i,
        None => {
            let mut msg = chars_of("invalid backend address ");
            push_chars(&mut msg, &v);
            return Err(plugin_error(string_of(&msg)));
        },
    };
    let port = match parse_u16_chars(&sub_chars(&v, i + 1, v.len())) {
        Some(p) => p,
        None => {
            let mut msg = chars_of("invalid backend port ");
            push_chars(&mut msg, &v);
            return Err(plugin_error(string_of(&msg)));
        },
    };
    Ok(SocketAddress { host: string_of(&sub_chars(&v, 0, i)), port })
}

/// The decision to keep the current upstream.
pub fn keep_route() -> (r: RouteDecision)
    ensures
        default_route(r),
{
    RouteDecision::keep()
}

/// The decision to send the flow to `backend`, or to keep the current
/// upstream when `backend` is not a `host:port`.
pub fn route_to(backend: String) -> (r: RouteDecision)
    ensures
        match backend_address(backend@) {
            Ok((h, p)) => {
                &&& r.action == RouteAction::ReplaceUpstream
                &&& r.upstream_to_set matches Some(a) && a.host@ == h && a.port == p
                &&& r.http_path is None
            },
            Err(_) => default_route(r),
        },
{
    match backend_to_socket_address(backend.as_str()) {
        Ok(upstream) => RouteDecision {
            action: RouteAction::ReplaceUpstream,
            upstream_to_set: Some(upstream),
            http_path: None,
        },
        Err(_) => keep_route(),
    }
}

/// The decision to reject the flow; the status and message are not carried.
pub fn reject_route(status: u16, message: &str) -> (r: RouteDecision)
    ensures
        r.action == RouteAction::Reject,
        r.upstream_to_set is None,
        r.http_path is None,
{
    RouteDecision { action: RouteAction::Reject, upstream_to_set: None, http_path: None }
}

/// The state shared by the plugin's TCP and UDP modules: the loaded state,
/// or the message of the load that failed.
pub struct SharedInitState {
    pub state: Option<SharedState>,
    pub init_error: Option<String>,
}

/// What an init call does next.
pub enum InitStep {
    /// The state is loaded: succeed.
    Ready,
    /// An earlier load failed: fail with this error.
    Failed(PluginError),
    /// Nothing was loaded yet: load the configuration and record it.
    Load,
}

pub enum InitStepModel {
    Ready,
    Failed(Seq<char>),
    Load,
}

/// What an init call does next in state `s`.
pub open spec fn init_step_of(s: SharedInitState) -> InitStepModel {
    if s.state is Some {
        InitStepModel::Ready
    } else {
        match s.init_error {
            Some(m) => InitStepModel::Failed(m@),
            None => InitStepModel::Load,
        }
    }
}

/// The message kept from a failed load: the error's message, or `failed to
/// load sticky config`.
pub open spec fn failure_text(e: PluginError) -> Seq<char> {
    match e.message {
        Some(m) => m@,
        None => "failed to load sticky config"@,
    }
}

impl SharedInitState {
    /// Nothing loaded, nothing failed.
    pub fn new() -> (s: SharedInitState)
        ensures
            s.state is None,
            s.init_error is None,
    {
        SharedInitState { state: None, init_error: None }
    }

    /// What an init call does next.
    pub fn init_step(&self) -> (r: InitStep)
        ensures
            match init_step_of(*self) {
                InitStepModel::Ready => r is Ready,
                InitStepModel::Load => r is Load,
                InitStepModel::Failed(m) => r matches InitStep::Failed(e) && error_says(e, m),
            },
    {
        if self.state.is_some() {
            return InitStep::Ready;
        }
        match &self.init_error {
            Some(m) => InitStep::Failed(plugin_error(m.clone())),
            None => InitStep::Load,
        }
    }

    /// Records the outcome of the first load and answers it. A loaded
    /// configuration becomes the shared state, with no assignments; a
    /// failure is kept, so that every later init fails with its message.
    pub fn record_load(&mut self, loaded: Result<LoadedConfig, PluginError>) -> (r: Result<(), PluginError>)
        requires
            old(self).state is None,
            old(self).init_error is None,
        ensures
            match loaded {
                Ok(c) => {
                    &&& r is Ok
                    &&& final(self).state matches Some(st) && st.config == c && st.assignments@.len() == 0
                        && keys_distinct(st.assignments@) && cache_consistent(st.config, cache_map(st.assignments@))
                    &&& init_step_of(*final(self)) == InitStepModel::Ready
                },
                Err(e) => {
                    &&& r == Err::<(), PluginError>(e)
                    &&& final(self).state is None
                    &&& init_step_of(*final(self)) == InitStepModel::Failed(failure_text(e))
                },
            },
    {
        match loaded {
            Ok(config) => {
                self.state = Some(SharedState::new(config));
                Ok(())
            },
            Err(err) => {
                let kept = match &err.message {
                    Some(m) => m.clone(),
                    None => string_of(&chars_of("failed to load sticky config")),
                };
                self.init_error = Some(kept);
                Err(err)
            },
        }
    }
}

} // verus!
