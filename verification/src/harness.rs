//! The module harness and its per-run context.
//!
//! A run's context ([`PersistApp`]) owns the live resources of the current
//! module run (held in blob form) and the persistence registry: the ordered
//! list of identifiers whose values are captured into the shared
//! [`ResourceStore`] when a reload is detected. The reload probe runs first in
//! every tick; on observing the pending flag it captures every registered
//! resource in registration order and requests exit, before any other system
//! of that tick runs.

use vstd::prelude::*;
use vstd::string::StringExecFns;

use crate::signal::ReloadSignal;
use crate::store::ResourceStore;

verus! {

/// Every fallible step of the persistence mechanism is fatal for the caller:
/// there is no partial-reload recovery path. The variants say which step
/// failed.
#[derive(Clone, Copy, Debug, PartialEq, Eq, Structural)]
pub enum PersistError {
    /// The same resource identifier was registered twice in one run.
    DuplicateResource,
    /// A stored blob could not be decoded as the registered resource.
    CorruptStoredValue,
}

/// One system's effect in one tick: it overwrites the blob held for a
/// resource identifier (inserting the resource if it was absent).
pub struct ResourceWrite {
    pub id: String,
    pub blob: Vec<u8>,
}

/// What one tick of the application does, in order: the probe polls the
/// signal, then every system write runs, then `events` filesystem change
/// notifications arrive before the next tick's probe.
pub struct TickInput {
    pub writes: Vec<ResourceWrite>,
    pub events: u32,
}

/// What a run did: whether it exited because a reload was detected, and how
/// many ticks ran their systems to completion.
#[derive(Clone, Copy, Debug, PartialEq, Eq, Structural)]
pub struct RunReport {
    pub reloaded: bool,
    pub ticks_run: usize,
}

/// The application context handed to the module for one run. It is rebuilt
/// fresh on every load; only the [`ResourceStore`] it reads from and captures
/// into outlives it.
pub struct PersistApp {
    resources: ResourceStore,
    registry: Vec<String>,
}

/// The store contents after one capture pass: every registered identifier's
/// live blob is written over the previous entry, in registration order.
pub open spec fn captured(
    st: Map<Seq<char>, Seq<u8>>,
    reg: Seq<Seq<char>>,
    live: Map<Seq<char>, Seq<u8>>,
) -> Map<Seq<char>, Seq<u8>>
    decreases reg.len(),
{
    if reg.len() == 0 {
        st
    } else {
        captured(st, reg.drop_last(), live).insert(reg.last(), live[reg.last()])
    }
}

/// The signal state the probe of tick `d` observes: the flag at load time,
/// or any change event raised by an earlier tick (the flag is never cleared
/// during a run).
pub open spec fn pending_at(p0: bool, script: Seq<TickInput>, d: int) -> bool {
    p0 || exists|i: int| 0 <= i < d && script[i].events > 0
}

/// The tick whose probe first observes a pending reload, or -1 if no probe of
/// the run does.
pub open spec fn detect_index(p0: bool, script: Seq<TickInput>) -> int
    decreases script.len(),
{
    if script.len() == 0 {
        -1
    } else if p0 {
        0
    } else {
        let rest = detect_index(
            script[0].events > 0,
            script.subrange(1, script.len() as int),
        );
        if rest < 0 {
            -1
        } else {
            1 + rest
        }
    }
}

/// The live resources after a sequence of system writes, applied in order.
pub open spec fn applied(
    live: Map<Seq<char>, Seq<u8>>,
    writes: Seq<ResourceWrite>,
) -> Map<Seq<char>, Seq<u8>>
    decreases writes.len(),
{
    if writes.len() == 0 {
        live
    } else {
        applied(live, writes.drop_last()).insert(writes.last().id@, writes.last().blob@)
    }
}

/// The live resources after the first `k` ticks of a run have executed their
/// systems.
pub open spec fn live_after(
    live0: Map<Seq<char>, Seq<u8>>,
    script: Seq<TickInput>,
    k: int,
) -> Map<Seq<char>, Seq<u8>>
    decreases k,
{
    if k <= 0 {
        live0
    } else {
        applied(live_after(live0, script, k - 1), script[k - 1].writes@)
    }
}

proof fn lemma_pending_shift(p0: bool, script: Seq<TickInput>, d: int)
    requires
        !p0,
        1 <= d <= script.len(),
    ensures
        pending_at(p0, script, d) == pending_at(
            script[0].events > 0,
            script.subrange(1, script.len() as int),
            d - 1,
        ),
{
    let p1 = script[0].events > 0;
    let s1 = script.subrange(1, script.len() as int);
    if pending_at(p0, script, d) {
        let i = choose|i: int| 0 <= i < d && script[i].events > 0;
        if i == 0 {
            assert(p1);
        } else {
            assert(s1[i - 1] == script[i]);
            assert(0 <= i - 1 < d - 1 && s1[i - 1].events > 0);
        }
        assert(pending_at(p1, s1, d - 1));
    }
    if pending_at(p1, s1, d - 1) {
        if p1 {
            assert(script[0].events > 0 && 0 < d);
        } else {
            let i = choose|i: int| 0 <= i < d - 1 && s1[i].events > 0;
            assert(script[i + 1] == s1[i]);
            assert(0 <= i + 1 < d && script[i + 1].events > 0);
        }
        assert(pending_at(p0, script, d));
    }
}

/// One tick of change events either leaves the observed flag alone (no event)
/// or sets it.
proof fn lemma_pending_step(p0: bool, script: Seq<TickInput>, i: int)
    requires
        0 <= i < script.len(),
    ensures
        pending_at(p0, script, i + 1) == (pending_at(p0, script, i) || script[i].events > 0),
{
    if pending_at(p0, script, i + 1) && !p0 {
        let w = choose|w: int| 0 <= w < i + 1 && script[w].events > 0;
        if w < i {
            assert(pending_at(p0, script, i));
        }
    }
    if pending_at(p0, script, i) && !p0 {
        let w = choose|w: int| 0 <= w < i && script[w].events > 0;
        assert(0 <= w < i + 1 && script[w].events > 0);
    }
    if script[i].events > 0 {
        assert(0 <= i < i + 1 && script[i].events > 0);
    }
}

/// The detection tick is the least tick whose probe observes the flag set.
proof fn lemma_detect_index_spec(p0: bool, script: Seq<TickInput>)
    ensures
        detect_index(p0, script) < 0 ==> forall|d: int|
            0 <= d < script.len() ==> !pending_at(p0, script, d),
        detect_index(p0, script) >= 0 ==> {
            let d = detect_index(p0, script);
            &&& d < script.len()
            &&& pending_at(p0, script, d)
            &&& forall|j: int| 0 <= j < d ==> !pending_at(p0, script, j)
        },
    decreases script.len(),
{
    if script.len() == 0 {
    } else if p0 {
        assert(pending_at(p0, script, 0));
    } else {
        let p1 = script[0].events > 0;
        let s1 = script.subrange(1, script.len() as int);
        lemma_detect_index_spec(p1, s1);
        assert(!pending_at(p0, script, 0));
        assert forall|d: int| 1 <= d <= script.len() implies pending_at(p0, script, d)
            == pending_at(p1, s1, d - 1) by {
            lemma_pending_shift(p0, script, d);
        }
        let rest = detect_index(p1, s1);
        if rest < 0 {
            assert forall|d: int| 0 <= d < script.len() implies !pending_at(p0, script, d) by {
                if d >= 1 {
                    assert(!pending_at(p1, s1, d - 1));
                }
            }
        } else {
            let d = 1 + rest;
            assert(pending_at(p1, s1, rest));
            assert(pending_at(p0, script, d));
            assert forall|j: int| 0 <= j < d implies !pending_at(p0, script, j) by {
                if j >= 1 {
                    assert(!pending_at(p1, s1, j - 1));
                }
            }
        }
    }
}

/// Law: a capture pass stores, for every registered identifier, exactly the
/// live value that identifier had when the pass ran.
pub proof fn lemma_capture_stores_live(
    st: Map<Seq<char>, Seq<u8>>,
    reg: Seq<Seq<char>>,
    live: Map<Seq<char>, Seq<u8>>,
    id: Seq<char>,
)
    requires
        reg.contains(id),
    ensures
        captured(st, reg, live).contains_key(id),
        captured(st, reg, live)[id] == live[id],
    decreases reg.len(),
{
    if reg.last() != id {
        let k = choose|k: int| 0 <= k < reg.len() && reg[k] == id;
        assert(reg.drop_last()[k] == id);
        lemma_capture_stores_live(st, reg.drop_last(), live, id);
    }
}

/// Law: a capture pass touches only registered identifiers; any other entry
/// of the store, and its absence, survives the pass untouched.
pub proof fn lemma_capture_frame(
    st: Map<Seq<char>, Seq<u8>>,
    reg: Seq<Seq<char>>,
    live: Map<Seq<char>, Seq<u8>>,
    id: Seq<char>,
)
    requires
        !reg.contains(id),
    ensures
        captured(st, reg, live).contains_key(id) == st.contains_key(id),
        st.contains_key(id) ==> captured(st, reg, live)[id] == st[id],
    decreases reg.len(),
{
    if reg.len() > 0 {
        assert(reg.last() != id);
        assert forall|k: int| 0 <= k < reg.drop_last().len() implies reg.drop_last()[k] != id by {
            assert(reg[k] == reg.drop_last()[k]);
        }
        lemma_capture_frame(st, reg.drop_last(), live, id);
    }
}

/// Law: an event is never lost. If any tick of a run raises a change event,
/// then either some later probe of the same run observes the flag (the run
/// exits through a capture pass), or the run ends with the flag still set, to
/// be consumed by the next load iteration — the flag is never cleared
/// mid-run.
pub proof fn lemma_no_lost_event(p0: bool, script: Seq<TickInput>, i: int)
    requires
        0 <= i < script.len(),
        script[i].events > 0,
    ensures
        pending_at(p0, script, script.len() as int),
        i + 1 < script.len() ==> detect_index(p0, script) >= 0,
{
    assert(pending_at(p0, script, script.len() as int));
    if i + 1 < script.len() {
        lemma_detect_index_spec(p0, script);
        if detect_index(p0, script) < 0 {
            assert(!pending_at(p0, script, i + 1));
            assert(false);
        }
    }
}

fn registry_has(reg: &Vec<String>, id: &String) -> (r: bool)
    ensures
        r == reg.deep_view().contains(id@),
{
    let n = reg.len();
    let mut i: usize = 0;
    while i < n
        invariant
            n == reg@.len(),
            i <= n,
            forall|j: int| 0 <= j < i ==> reg@[j]@ != id@,
        decreases n - i,
    {
        if reg[i] == *id {
            proof {
                assert(reg.deep_view()[i as int] == id@);
            }
            return true;
        }
        i += 1;
    }
    proof {
        assert(forall|j: int| 0 <= j < reg.deep_view().len()
            ==> #[trigger] reg.deep_view()[j] == reg@[j]@);
    }
    false
}

fn clone_blob(b: &Vec<u8>) -> (r: Vec<u8>)
    ensures
        r@ == b@,
{
    let n = b.len();
    let mut r: Vec<u8> = Vec::new();
    let mut i: usize = 0;
    while i < n
        invariant
            n == b@.len(),
            i <= n,
            r@ == b@.take(i as int),
        decreases n - i,
    {
        r.push(b[i]);
        proof {
            assert(r@ =~= b@.take(i + 1));
        }
        i += 1;
    }
    proof {
        assert(r@ =~= b@);
    }
    r
}

impl PersistApp {
    /// The live resources of this run, each held as its representation blob.
    pub closed spec fn live(&self) -> Map<Seq<char>, Seq<u8>> {
        self.resources@
    }

    /// The persistence registry: the identifiers registered for capture, in
    /// registration order.
    pub closed spec fn registry_ids(&self) -> Seq<Seq<char>> {
        self.registry.deep_view()
    }

    /// Internal consistency: no identifier is registered twice, and every
    /// registered identifier has a live resource to capture.
    pub closed spec fn wf(&self) -> bool {
        &&& self.resources.wf()
        &&& (forall|i: int, j: int|
            0 <= i < j < self.registry@.len() ==> self.registry@[i]@ != self.registry@[j]@)
        &&& (forall|i: int|
            0 <= i < self.registry@.len() ==> self.resources@.contains_key(
                #[trigger] self.registry@[i]@,
            ))
    }

    /// A fresh application context: no live resources, an empty registry.
    /// Built once per load, immediately before the module's entry point runs.
    pub fn new_app() -> (app: Self)
        ensures
            app.wf(),
            app.live() == Map::<Seq<char>, Seq<u8>>::empty(),
            app.registry_ids() == Seq::<Seq<char>>::empty(),
    {
        let app = PersistApp { resources: ResourceStore::new(), registry: Vec::new() };
        proof {
            assert(app.registry.deep_view() =~= Seq::<Seq<char>>::empty());
        }
        app
    }

    /// Insert a resource for this run only: it is visible to later systems and
    /// gone when the run ends, with no persistence.
    pub fn add_resource(&mut self, id: String, value: Vec<u8>)
        requires
            old(self).wf(),
        ensures
            final(self).wf(),
            final(self).live() == old(self).live().insert(id@, value@),
            final(self).registry_ids() == old(self).registry_ids(),
    {
        self.resources.put(id, value);
    }

    /// Register a resource whose in-memory representation is carried across
    /// the reload directly, with no serialization step: if the store holds a
    /// blob for `id` (captured by the previous run), that blob becomes the
    /// resource's value for this run; otherwise `default_value` does. Either
    /// way the identifier joins the registry, so the value as mutated during
    /// the run is captured again at the next reload. Registering the same
    /// identifier twice in one run is a caller error and fails fast, changing
    /// nothing.
    pub fn add_direct_preserve_resource(
        &mut self,
        store: &ResourceStore,
        id: String,
        default_value: Vec<u8>,
    ) -> (r: Result<(), PersistError>)
        requires
            old(self).wf(),
            store.wf(),
        ensures
            final(self).wf(),
            old(self).registry_ids().contains(id@) ==> r == Err::<(), PersistError>(
                PersistError::DuplicateResource,
            ) && *final(self) == *old(self),
            !old(self).registry_ids().contains(id@) ==> {
                &&& r == Ok::<(), PersistError>(())
                &&& final(self).registry_ids() == old(self).registry_ids().push(id@)
                &&& final(self).live() == old(self).live().insert(
                    id@,
                    if store@.contains_key(id@) {
                        store@[id@]
                    } else {
                        default_value@
                    },
                )
            },
    {
        if registry_has(&self.registry, &id) {
            return Err(PersistError::DuplicateResource);
        }
        match store.get(&id) {
            Some(stored) => {
                let restored = clone_blob(stored);
                self.resources.put(id.clone(), restored);
            },
            None => {
                self.resources.put(id.clone(), default_value);
            },
        }
        let ghost pre = self.registry.deep_view();
        self.registry.push(id);
        proof {
            let idv = self.registry@.last()@;
            assert(self.registry.deep_view() =~= pre.push(idv));
            assert forall|k: int| 0 <= k < pre.len() implies #[trigger] self.registry@[k]@
                != idv by {
                assert(pre[k] == self.registry@[k]@);
                if self.registry@[k]@ == idv {
                    assert(pre.contains(idv));
                }
            }
            assert forall|i: int| 0 <= i < self.registry@.len() implies self.resources@
                .contains_key(#[trigger] self.registry@[i]@) by {
                if i < self.registry@.len() - 1 {
                    assert(old(self).resources@.contains_key(old(self).registry@[i]@));
                    assert(self.registry@[i]@ == old(self).registry@[i]@);
                }
            }
        }
        Ok(())
    }

    /// Register a counter resource on the serializing preserve path. If the
    /// store holds a blob for `id`, it is decoded and the decoded value — the
    /// value as it existed when the previous run's capture pass ran — becomes
    /// the resource for this run; a corrupt blob fails fatally rather than
    /// silently falling back to the default. If the store has no entry for
    /// `id`, the value is exactly `default`. Either way the identifier joins
    /// the registry, so the counter as mutated during the run is serialized
    /// and captured again at the next reload. Registering the same identifier
    /// twice in one run is a caller error and fails fast, changing nothing.
    pub fn add_serde_preserve_resource(
        &mut self,
        store: &ResourceStore,
        id: String,
        default: u64,
    ) -> (r: Result<u64, PersistError>)
        requires
            old(self).wf(),
            store.wf(),
        ensures
            final(self).wf(),
            old(self).registry_ids().contains(id@) ==> r == Err::<u64, PersistError>(
                PersistError::DuplicateResource,
            ) && *final(self) == *old(self),
            !old(self).registry_ids().contains(id@) && store@.contains_key(id@) && store@[id@].len()
                < 8 ==> r == Err::<u64, PersistError>(PersistError::CorruptStoredValue)
                && *final(self) == *old(self),
            !old(self).registry_ids().contains(id@) && !(store@.contains_key(id@)
                && store@[id@].len() < 8) ==> {
                let v = if store@.contains_key(id@) {
                    crate::codec::le_bytes_val(store@[id@])
                } else {
                    default
                };
                &&& r == Ok::<u64, PersistError>(v)
                &&& final(self).registry_ids() == old(self).registry_ids().push(id@)
                &&& final(self).live() == old(self).live().insert(
                    id@,
                    crate::codec::u64_le_bytes(v),
                )
            },
    {
        if registry_has(&self.registry, &id) {
            return Err(PersistError::DuplicateResource);
        }
        let value: u64 = match store.get(&id) {
            Some(stored) => match crate::codec::decode_counter(stored) {
                Some(v) => v,
                None => {
                    return Err(PersistError::CorruptStoredValue);
                },
            },
            None => default,
        };
        let blob = crate::codec::encode_counter(value);
        self.resources.put(id.clone(), blob);
        let ghost pre = self.registry.deep_view();
        self.registry.push(id);
        proof {
            let idv = self.registry@.last()@;
            assert(self.registry.deep_view() =~= pre.push(idv));
            assert forall|k: int| 0 <= k < pre.len() implies #[trigger] self.registry@[k]@
                != idv by {
                assert(pre[k] == self.registry@[k]@);
                if self.registry@[k]@ == idv {
                    assert(pre.contains(idv));
                }
            }
            assert forall|i: int| 0 <= i < self.registry@.len() implies self.resources@
                .contains_key(#[trigger] self.registry@[i]@) by {
                if i < self.registry@.len() - 1 {
                    assert(old(self).resources@.contains_key(old(self).registry@[i]@));
                    assert(self.registry@[i]@ == old(self).registry@[i]@);
                }
            }
        }
        Ok(value)
    }

    /// The reload probe, ordered first in every tick. If the signal is
    /// pending it performs the capture pass — every registered identifier's
    /// current live blob is written to the store, in registration order —
    /// consumes the registry (reloading is terminal for this run) and
    /// requests exit, all before any other system of the tick runs. The
    /// signal itself is left untouched: it is consumed only at the next load
    /// iteration.
    pub fn probe_for_reload(
        &mut self,
        store: &mut ResourceStore,
        signal: &ReloadSignal,
    ) -> (exit: bool)
        requires
            old(self).wf(),
            old(store).wf(),
        ensures
            final(self).wf(),
            final(store).wf(),
            exit == signal@,
            final(self).live() == old(self).live(),
            !signal@ ==> *final(self) == *old(self) && *final(store) == *old(store),
            signal@ ==> {
                &&& final(self).registry_ids() == Seq::<Seq<char>>::empty()
                &&& final(store)@ == captured(
                    old(store)@,
                    old(self).registry_ids(),
                    old(self).live(),
                )
            },
    {
        if !signal.is_pending() {
            return false;
        }
        let n = self.registry.len();
        let mut i: usize = 0;
        while i < n
            invariant
                n == self.registry@.len(),
                i <= n,
                self == old(self),
                self.wf(),
                store.wf(),
                store@ == captured(
                    old(store)@,
                    self.registry_ids().take(i as int),
                    self.live(),
                ),
            decreases n - i,
        {
            let id = &self.registry[i];
            let blob = match self.resources.get(id) {
                Some(b) => clone_blob(b),
                None => {
                    proof {
                        assert(false);
                    }
                    vstd::pervasive::unreached()
                },
            };
            store.put(id.clone(), blob);
            proof {
                let reg = self.registry_ids();
                assert(reg.take(i + 1).drop_last() =~= reg.take(i as int));
                assert(reg.take(i + 1).last() == reg[i as int]);
                assert(reg[i as int] == self.registry@[i as int]@);
            }
            i += 1;
        }
        proof {
            assert(self.registry_ids().take(n as int) =~= self.registry_ids());
        }
        self.registry = Vec::new();
        proof {
            assert(self.registry.deep_view() =~= Seq::<Seq<char>>::empty());
        }
        true
    }

    /// The run loop the module hands control to, driven by a script: one
    /// [`TickInput`] per tick, each tick running the probe first, then its
    /// system writes in order, then receiving its change events. The run ends
    /// when the probe detects a reload — at the first tick whose probe
    /// observes the flag — or when the script is exhausted (the module's own
    /// natural exit).
    ///
    /// The contract carries the run's guarantees. Exactly one capture pass
    /// happens on a reload, however many events arrived (coalescing); the
    /// flag, once raised, is still raised when the run ends, never consumed
    /// mid-run (no lost event); and on the detection tick no system write is
    /// applied after the probe fires — what is captured is the live state as
    /// of the end of the previous tick (capture isolation).
    pub fn run(
        &mut self,
        store: &mut ResourceStore,
        signal: &mut ReloadSignal,
        script: &Vec<TickInput>,
    ) -> (report: RunReport)
        requires
            old(self).wf(),
            old(store).wf(),
        ensures
            final(self).wf(),
            final(store).wf(),
            ({
                let d = detect_index(old(signal)@, script@);
                let live0 = old(self).live();
                &&& report.reloaded == (d >= 0)
                &&& (d >= 0 ==> {
                    &&& report.ticks_run == d
                    &&& final(self).live() == live_after(live0, script@, d)
                    &&& final(self).registry_ids() == Seq::<Seq<char>>::empty()
                    &&& final(store)@ == captured(
                        old(store)@,
                        old(self).registry_ids(),
                        live_after(live0, script@, d),
                    )
                    &&& final(signal)@
                })
                &&& (d < 0 ==> {
                    &&& report.ticks_run == script@.len()
                    &&& final(self).live() == live_after(live0, script@, script@.len() as int)
                    &&& final(self).registry_ids() == old(self).registry_ids()
                    &&& final(store)@ == old(store)@
                    &&& final(signal)@ == pending_at(old(signal)@, script@, script@.len() as int)
                })
            }),
    {
        let ghost p0 = signal@;
        let ghost live0 = self.live();
        let ghost reg0 = self.registry_ids();
        let ghost store0 = store@;
        let n = script.len();
        let mut i: usize = 0;
        let mut reloaded = false;
        while i < n
            invariant_except_break
                !reloaded,
                self.registry_ids() == reg0,
                self.live() == live_after(live0, script@, i as int),
                store@ == store0,
                signal@ == pending_at(p0, script@, i as int),
            invariant
                n == script@.len(),
                i <= n,
                self.wf(),
                store.wf(),
                forall|j: int| 0 <= j < i ==> !pending_at(p0, script@, j),
            ensures
                reloaded ==> i < n && pending_at(p0, script@, i as int) && self.live()
                    == live_after(live0, script@, i as int) && store@ == captured(
                    store0,
                    reg0,
                    live_after(live0, script@, i as int),
                ) && self.registry_ids() == Seq::<Seq<char>>::empty() && signal@,
                !reloaded ==> i == n && self.live() == live_after(live0, script@, n as int)
                    && store@ == store0 && self.registry_ids() == reg0 && signal@ == pending_at(
                    p0,
                    script@,
                    n as int,
                ),
            decreases n - i,
        {
            let exit = self.probe_for_reload(store, signal);
            if exit {
                reloaded = true;
                break ;
            }
            let tick = &script[i];
            let ghost ws = script@[i as int].writes@;
            let ghost base = live_after(live0, script@, i as int);
            let m = tick.writes.len();
            let mut w: usize = 0;
            while w < m
                invariant
                    m == ws.len(),
                    w <= m,
                    tick.writes@ == script@[i as int].writes@,
                    ws == script@[i as int].writes@,
                    self.wf(),
                    self.registry_ids() == reg0,
                    self.live() == applied(base, ws.take(w as int)),
                decreases m - w,
            {
                let id = tick.writes[w].id.clone();
                let blob = clone_blob(&tick.writes[w].blob);
                self.resources.put(id, blob);
                proof {
                    assert(ws.take(w + 1).drop_last() =~= ws.take(w as int));
                    assert(ws.take(w + 1).last() == ws[w as int]);
                }
                w += 1;
            }
            proof {
                assert(ws.take(m as int) =~= ws);
                assert(self.live() == live_after(live0, script@, i + 1));
            }
            let ev = tick.events;
            let mut e: u32 = 0;
            while e < ev
                invariant
                    ev == script@[i as int].events,
                    e <= ev,
                    signal@ == (pending_at(p0, script@, i as int) || e > 0),
                decreases ev - e,
            {
                signal.notify_change();
                e += 1;
            }
            proof {
                lemma_pending_step(p0, script@, i as int);
            }
            i += 1;
        }
        proof {
            lemma_detect_index_spec(p0, script@);
            let d = detect_index(p0, script@);
            if reloaded {
                if d < 0 {
                    assert(!pending_at(p0, script@, i as int));
                } else if d < i as int {
                    assert(!pending_at(p0, script@, d));
                } else if d > i as int {
                    assert(!pending_at(p0, script@, i as int));
                }
                assert(d == i as int);
            } else {
                if d >= 0 {
                    assert(!pending_at(p0, script@, d));
                }
                assert(d < 0);
            }
        }
        RunReport { reloaded, ticks_run: i }
    }
}

/// The start of one harness load iteration: the pending flag is consumed
/// (reload events that arrived since the last load collapse into this one
/// reload) and a fresh application context is built for the module's entry
/// point. The shared store is untouched: whatever the previous run captured
/// is what this run's registrations will observe.
pub fn begin_load_iteration(signal: &mut ReloadSignal) -> (app: PersistApp)
    ensures
        !final(signal)@,
        app.wf(),
        app.live() == Map::<Seq<char>, Seq<u8>>::empty(),
        app.registry_ids() == Seq::<Seq<char>>::empty(),
{
    signal.clear_for_load();
    PersistApp::new_app()
}

/// The file name of the module artifact: the platform's dynamic-library
/// prefix, the module's name, and the platform's dynamic-library suffix, in
/// that order. The caller joins it onto the running executable's directory.
pub fn module_file_name(prefix: &str, name: &str, suffix: &str) -> (r: String)
    ensures
        r@ == prefix@ + name@ + suffix@,
{
    let mut r = prefix.to_owned();
    r.append(name);
    r.append(suffix);
    r
}

} // verus!
