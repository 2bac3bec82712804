//! Model scheduler for on-device deployment.
//!
//! Frequently used models stay resident in memory, the others are loaded on
//! demand. When loading a model would push memory use above the unload
//! threshold, on-demand models are unloaded first, lowest priority (highest
//! priority number) first.
use vstd::prelude::*;
use crate::utils::text::{str_eq, concat3};
use vstd::string::StringExecFns;

verus! {

/// How a model is kept in memory.
#[derive(Debug, Clone, Copy, PartialEq, Eq, Structural)]
pub enum LoadStrategy {
    /// Stays in memory (frequently used model)
    Resident,
    /// Loaded when needed (rarely used but important model)
    OnDemand,
}

/// The state of a registered model.
#[derive(Debug, Clone, Copy, PartialEq, Eq, Structural)]
pub enum ModelState {
    /// Loaded and ready
    Ready,
    /// Being loaded
    Loading,
    /// Not loaded (or unloaded)
    Unloaded,
    /// Loading failed
    Failed,
}

/// The name of a state as it appears in messages.
pub open spec fn state_label(s: ModelState) -> Seq<char> {
    match s {
        ModelState::Ready => "Ready"@,
        ModelState::Loading => "Loading"@,
        ModelState::Unloaded => "Unloaded"@,
        ModelState::Failed => "Failed"@,
    }
}

impl ModelState {
    /// The name of the state, as the derived `Debug` prints it.
    pub fn label(&self) -> (s: &'static str)
        ensures
            s@ == state_label(*self),
    {
        match self {
            ModelState::Ready => "Ready",
            ModelState::Loading => "Loading",
            ModelState::Unloaded => "Unloaded",
            ModelState::Failed => "Failed",
        }
    }
}

/// Registration record of a model.
#[derive(Debug, Clone)]
pub struct ModelRegistry {
    /// Model name
    pub name: String,
    /// Load strategy
    pub strategy: LoadStrategy,
    /// Current state
    pub state: ModelState,
    /// Estimated memory use (bytes)
    pub estimated_memory: usize,
    /// Load priority (a smaller number is a higher priority)
    pub priority: usize,
    /// Inference timeout (ms)
    pub timeout_ms: u64,
    /// Number of loads
    pub load_count: usize,
    /// Number of inferences
    pub inference_count: usize,
}

/// The mathematical content of a registration record.
pub struct RegistryView {
    pub name: Seq<char>,
    pub strategy: LoadStrategy,
    pub state: ModelState,
    pub estimated_memory: nat,
    pub priority: nat,
    pub timeout_ms: nat,
    pub load_count: nat,
    pub inference_count: nat,
}

impl View for ModelRegistry {
    type V = RegistryView;

    open spec fn view(&self) -> RegistryView {
        RegistryView {
            name: self.name@,
            strategy: self.strategy,
            state: self.state,
            estimated_memory: self.estimated_memory as nat,
            priority: self.priority as nat,
            timeout_ms: self.timeout_ms as nat,
            load_count: self.load_count as nat,
            inference_count: self.inference_count as nat,
        }
    }
}

/// A fresh, unloaded registration record.
pub open spec fn fresh_registry(name: Seq<char>, strategy: LoadStrategy, memory: nat, priority: nat, timeout_ms: nat) -> RegistryView {
    RegistryView {
        name,
        strategy,
        state: ModelState::Unloaded,
        estimated_memory: memory,
        priority,
        timeout_ms,
        load_count: 0,
        inference_count: 0,
    }
}

impl ModelRegistry {
    /// Registers a resident model (inference timeout 500 ms).
    pub fn resident(name: &str, memory: usize, priority: usize) -> (r: ModelRegistry)
        ensures
            r@ == fresh_registry(name@, LoadStrategy::Resident, memory as nat, priority as nat, 500),
    {
        ModelRegistry {
            name: name.to_owned(),
            strategy: LoadStrategy::Resident,
            state: ModelState::Unloaded,
            estimated_memory: memory,
            priority,
            timeout_ms: 500,
            load_count: 0,
            inference_count: 0,
        }
    }

    /// Registers an on-demand model (inference timeout 3000 ms).
    pub fn on_demand(name: &str, memory: usize, priority: usize) -> (r: ModelRegistry)
        ensures
            r@ == fresh_registry(name@, LoadStrategy::OnDemand, memory as nat, priority as nat, 3000),
    {
        ModelRegistry {
            name: name.to_owned(),
            strategy: LoadStrategy::OnDemand,
            state: ModelState::Unloaded,
            estimated_memory: memory,
            priority,
            timeout_ms: 3000,
            load_count: 0,
            inference_count: 0,
        }
    }
}

/// Scheduler configuration. Memory thresholds are given in per mille of the
/// maximum memory.
#[derive(Debug, Clone)]
pub struct SchedulerConfig {
    /// Maximum memory (bytes)
    pub max_memory: u64,
    /// Memory warning threshold (per mille of `max_memory`)
    pub memory_warning_permille: u64,
    /// Memory unload threshold (per mille of `max_memory`)
    pub memory_unload_permille: u64,
    /// Load the resident models at start-up
    pub warmup_on_start: bool,
    /// Inference timeout (ms)
    pub default_timeout_ms: u64,
}

impl Default for SchedulerConfig {
    /// 6 GB of memory, warning at 70 %, unloading above 85 %, warm-up on
    /// start, 1000 ms timeout.
    fn default() -> (c: SchedulerConfig)
        ensures
            c.max_memory == 6 * 1024 * 1024 * 1024,
            c.memory_warning_permille == 700,
            c.memory_unload_permille == 850,
            c.warmup_on_start,
            c.default_timeout_ms == 1000,
    {
        SchedulerConfig {
            max_memory: 6 * 1024 * 1024 * 1024,
            memory_warning_permille: 700,
            memory_unload_permille: 850,
            warmup_on_start: true,
            default_timeout_ms: 1000,
        }
    }
}

// ---------------------------------------------------------------------------
// The mathematical model of the scheduler
// ---------------------------------------------------------------------------

/// The registration records of a list of models.
pub open spec fn views(ms: Seq<ModelRegistry>) -> Seq<RegistryView> {
    ms.map_values(|m: ModelRegistry| m@)
}

/// Memory that model `m` holds: its estimate when it is ready, else nothing.
pub open spec fn held(m: RegistryView) -> nat {
    if m.state == ModelState::Ready { m.estimated_memory } else { 0 }
}

/// Memory held by the ready models among the first `n` models of `ms`.
pub open spec fn ready_upto(ms: Seq<RegistryView>, n: int) -> nat
    decreases n,
{
    if n <= 0 { 0 } else { ready_upto(ms, n - 1) + held(ms[n - 1]) }
}

/// Memory held by the ready models of `ms`.
pub open spec fn ready_memory(ms: Seq<RegistryView>) -> nat {
    ready_upto(ms, ms.len() as int)
}

/// Memory of the first `n` models of `ms`, loaded or not.
pub open spec fn total_upto(ms: Seq<RegistryView>, n: int) -> nat
    decreases n,
{
    if n <= 0 { 0 } else { total_upto(ms, n - 1) + ms[n - 1].estimated_memory }
}

/// Memory of all models of `ms`, loaded or not.
pub open spec fn total_memory(ms: Seq<RegistryView>) -> nat {
    total_upto(ms, ms.len() as int)
}

/// Memory held by the ready models of `ms` that follow `strategy`, among the
/// first `n`.
pub open spec fn ready_upto_with(ms: Seq<RegistryView>, strategy: LoadStrategy, n: int) -> nat
    decreases n,
{
    if n <= 0 {
        0
    } else {
        ready_upto_with(ms, strategy, n - 1) + if ms[n - 1].strategy == strategy { held(ms[n - 1]) } else { 0 }
    }
}

/// A model that auto-unloading may unload: an on-demand model that is ready.
pub open spec fn is_candidate(m: RegistryView) -> bool {
    m.strategy == LoadStrategy::OnDemand && m.state == ModelState::Ready
}

/// Auto-unloading visits model `d` before model `c`: a larger priority number
/// first, and between equal priorities the earlier registration first.
pub open spec fn ranked_before(ms: Seq<RegistryView>, d: int, c: int) -> bool {
    ms[d].priority > ms[c].priority || (ms[d].priority == ms[c].priority && d < c)
}

/// Memory of the candidates among the first `n` models that auto-unloading
/// visits before model `c`.
pub open spec fn freed_before(ms: Seq<RegistryView>, c: int, n: int) -> nat
    decreases n,
{
    if n <= 0 {
        0
    } else {
        freed_before(ms, c, n - 1) + if is_candidate(ms[n - 1]) && ranked_before(ms, n - 1, c) {
            ms[n - 1].estimated_memory
        } else {
            0
        }
    }
}

/// Auto-unloading to free `required` bytes unloads model `c`: it is a
/// candidate, and the candidates visited before it free less than `required`.
pub open spec fn is_victim(ms: Seq<RegistryView>, c: int, required: nat) -> bool {
    is_candidate(ms[c]) && freed_before(ms, c, ms.len() as int) < required
}

/// Memory of the models among the first `n` that auto-unloading to free
/// `required` bytes unloads.
pub open spec fn victim_memory(ms: Seq<RegistryView>, required: nat, n: int) -> nat
    decreases n,
{
    if n <= 0 {
        0
    } else {
        victim_memory(ms, required, n - 1) + if is_victim(ms, n - 1, required) { ms[n - 1].estimated_memory } else { 0 }
    }
}

/// The number of candidates among the first `n` models that auto-unloading
/// visits before model `c`.
pub open spec fn count_before(ms: Seq<RegistryView>, c: int, n: int) -> nat
    decreases n,
{
    if n <= 0 {
        0
    } else {
        count_before(ms, c, n - 1) + if is_candidate(ms[n - 1]) && ranked_before(ms, n - 1, c) { 1nat } else { 0nat }
    }
}

/// The record `m` after unloading.
pub open spec fn unloaded(m: RegistryView) -> RegistryView {
    RegistryView { state: ModelState::Unloaded, ..m }
}

/// The record `m` after loading.
pub open spec fn loaded(m: RegistryView) -> RegistryView {
    RegistryView { state: ModelState::Ready, load_count: m.load_count + 1, ..m }
}

/// The registrations that the scheduler starts from: two resident models and
/// seven on-demand models, none loaded.
pub open spec fn standard_registry() -> Seq<RegistryView> {
    seq![
        fresh_registry("textcnn"@, LoadStrategy::Resident, 1_000_000, 1, 500),
        fresh_registry("ga"@, LoadStrategy::Resident, 500_000, 2, 500),
        fresh_registry("moe_router"@, LoadStrategy::OnDemand, 1_000_000, 3, 3000),
        fresh_registry("mamba"@, LoadStrategy::OnDemand, 4_000_000, 4, 3000),
        fresh_registry("transformer"@, LoadStrategy::OnDemand, 12_000_000, 5, 3000),
        fresh_registry("encoder"@, LoadStrategy::OnDemand, 4_000_000, 6, 3000),
        fresh_registry("gnn"@, LoadStrategy::OnDemand, 1_000_000, 7, 3000),
        fresh_registry("vae"@, LoadStrategy::OnDemand, 2_000_000, 8, 3000),
        fresh_registry("snn"@, LoadStrategy::OnDemand, 1_000_000, 9, 3000),
    ]
}

/// `a` and `b` register the same model with the same strategy, memory
/// estimate, priority and timeout (they may differ in state and counters).
pub open spec fn same_registration(a: RegistryView, b: RegistryView) -> bool {
    &&& a.name == b.name
    &&& a.strategy == b.strategy
    &&& a.estimated_memory == b.estimated_memory
    &&& a.priority == b.priority
    &&& a.timeout_ms == b.timeout_ms
}

/// The record `m` after warm-up: a resident model that is unloaded gets loaded.
pub open spec fn warmed(m: RegistryView) -> RegistryView {
    if m.strategy == LoadStrategy::Resident && m.state == ModelState::Unloaded {
        loaded(m)
    } else {
        m
    }
}

/// The models that a task type needs, in loading order.
pub open spec fn required_for(task: Seq<char>) -> Seq<Seq<char>> {
    if task == "security"@ {
        seq!["moe_router"@, "textcnn"@, "mamba"@]
    } else if task == "semantic"@ {
        seq!["moe_router"@, "encoder"@, "mamba"@]
    } else if task == "language"@ {
        seq!["moe_router"@, "transformer"@, "mamba"@]
    } else if task == "causal"@ {
        seq!["moe_router"@, "gnn"@, "mamba"@, "vae"@]
    } else if task == "decision"@ {
        seq!["moe_router"@, "mamba"@, "gnn"@, "snn"@]
    } else {
        seq!["moe_router"@, "textcnn"@, "mamba"@]
    }
}

/// The standard indices of the models that a task type needs.
pub open spec fn required_indices(task: Seq<char>) -> Seq<int> {
    if task == "security"@ {
        seq![2, 0, 3]
    } else if task == "semantic"@ {
        seq![2, 5, 3]
    } else if task == "language"@ {
        seq![2, 4, 3]
    } else if task == "causal"@ {
        seq![2, 6, 3, 7]
    } else if task == "decision"@ {
        seq![2, 3, 6, 8]
    } else {
        seq![2, 0, 3]
    }
}

/// The characters of each string of a list.
pub open spec fn string_views(v: Seq<String>) -> Seq<Seq<char>> {
    v.map_values(|s: String| s@)
}

/// The characters of each string slice of a list.
pub open spec fn str_views(v: Seq<&str>) -> Seq<Seq<char>> {
    v.map_values(|s: &str| s@)
}

/// Message of the error for a name that is not registered.
pub open spec fn not_registered_msg(name: Seq<char>) -> Seq<char> {
    "模型 '"@ + name + "' 未注册"@
}

/// Message of the error for unloading a resident model.
pub open spec fn resident_msg(name: Seq<char>) -> Seq<char> {
    "模型 '"@ + name + "' 是常驻模型，不可卸载"@
}

/// Message of the error for unloading a model that is not ready.
pub open spec fn not_ready_msg(name: Seq<char>, state: ModelState) -> Seq<char> {
    "模型 '"@ + name + "' 当前状态为 "@ + state_label(state) + "，无法卸载"@
}

/// The operations of a scheduler: `load_model`, `unload_model`, `get_model`
/// and `schedule_inference`.
#[derive(Debug, Clone, Copy, PartialEq, Eq, Structural)]
pub enum SchedulerOp {
    Load,
    Unload,
    Get,
    Schedule,
}

/// The abstract state of a scheduler.
pub struct SchedulerView {
    /// Registered models, in registration order
    pub models: Seq<RegistryView>,
    /// Memory currently held by loaded models
    pub current_memory: nat,
    /// Whether the resident models were warmed up
    pub warmed_up: bool,
    /// Maximum memory
    pub max_memory: nat,
    /// Unload threshold, per mille of `max_memory`
    pub unload_permille: nat,
    /// Inference timeout of a schedule
    pub default_timeout_ms: nat,
}

impl SchedulerView {
    /// The models are the standard ones (in any state), and the memory held
    /// is that of the ready models.
    pub open spec fn wf(self) -> bool {
        &&& self.models.len() == 9
        &&& forall|k: int| 0 <= k < 9 ==> same_registration(#[trigger] self.models[k], standard_registry()[k])
        &&& self.current_memory == ready_memory(self.models)
    }

    /// Index of the model called `name`, or -1 when there is none.
    pub open spec fn position(self, name: Seq<char>) -> int {
        if exists|k: int| 0 <= k < self.models.len() && self.models[k].name == name {
            choose|k: int| 0 <= k < self.models.len() && self.models[k].name == name
        } else {
            -1
        }
    }

    /// Adding `additional` bytes would take memory above the unload threshold.
    pub open spec fn overflows(self, additional: nat) -> bool {
        (self.current_memory + additional) * 1000 > self.max_memory * self.unload_permille
    }

    /// The state after auto-unloading to free `required` bytes.
    pub open spec fn after_auto_unload(self, required: nat) -> SchedulerView {
        let models = Seq::new(
            self.models.len(),
            |k: int| if is_victim(self.models, k, required) { unloaded(self.models[k]) } else { self.models[k] },
        );
        SchedulerView { models, current_memory: ready_memory(models), ..self }
    }

    /// The state after loading the model called `name`.
    pub open spec fn after_load(self, name: Seq<char>) -> SchedulerView {
        let i = self.position(name);
        if i < 0 || self.models[i].state == ModelState::Ready {
            self
        } else {
            let memory = self.models[i].estimated_memory;
            let freed = if self.overflows(memory) { self.after_auto_unload(memory) } else { self };
            let models = freed.models.update(i, loaded(freed.models[i]));
            SchedulerView { models, current_memory: ready_memory(models), ..freed }
        }
    }

    /// The state after loading the models called `names`, in order.
    pub open spec fn after_loads(self, names: Seq<Seq<char>>) -> SchedulerView
        decreases names.len(),
    {
        if names.len() == 0 {
            self
        } else {
            self.after_loads(names.drop_last()).after_load(names.last())
        }
    }

    /// The error of unloading the model called `name`, if unloading fails.
    pub open spec fn unload_error(self, name: Seq<char>) -> Option<Seq<char>> {
        let i = self.position(name);
        if i < 0 {
            Some(not_registered_msg(name))
        } else if self.models[i].strategy == LoadStrategy::Resident {
            Some(resident_msg(name))
        } else if self.models[i].state != ModelState::Ready {
            Some(not_ready_msg(name, self.models[i].state))
        } else {
            None
        }
    }

    /// The state after unloading the model called `name`.
    pub open spec fn after_unload(self, name: Seq<char>) -> SchedulerView {
        if self.unload_error(name) is Some {
            self
        } else {
            let i = self.position(name);
            let models = self.models.update(i, unloaded(self.models[i]));
            SchedulerView { models, current_memory: ready_memory(models), ..self }
        }
    }

    /// Loading the model called `name` cannot overflow its load counter.
    pub open spec fn can_load(self, name: Seq<char>) -> bool {
        self.position(name) >= 0 ==> self.models[self.position(name)].load_count < usize::MAX
    }

    /// Loading and counting an inference of the model called `name` cannot
    /// overflow its counters.
    pub open spec fn can_infer(self, name: Seq<char>) -> bool {
        self.position(name) >= 0 ==> {
            &&& self.models[self.position(name)].load_count < usize::MAX
            &&& self.models[self.position(name)].inference_count < usize::MAX
        }
    }

    /// The state after fetching the model called `name` for an inference: it
    /// is loaded and its inference counter goes up by one.
    pub open spec fn after_get(self, name: Seq<char>) -> SchedulerView {
        let s = self.after_load(name);
        let i = self.position(name);
        if i < 0 {
            s
        } else {
            let m = s.models[i];
            SchedulerView {
                models: s.models.update(i, RegistryView { inference_count: m.inference_count + 1, ..m }),
                ..s
            }
        }
    }

    /// Memory the models called `names` need, counting each name that is
    /// registered.
    pub open spec fn schedule_memory(self, names: Seq<Seq<char>>) -> nat
        decreases names.len(),
    {
        if names.len() == 0 {
            0
        } else {
            let i = self.position(names.last());
            self.schedule_memory(names.drop_last()) + if i >= 0 { self.models[i].estimated_memory } else { 0 }
        }
    }

    /// Memory held by the ready models that follow `strategy`.
    pub open spec fn ready_memory_with(self, strategy: LoadStrategy) -> nat {
        ready_upto_with(self.models, strategy, self.models.len() as int)
    }

    /// Every resident model is ready.
    pub open spec fn residents_ready(self) -> bool {
        forall|k: int| 0 <= k < self.models.len() && (#[trigger] self.models[k]).strategy == LoadStrategy::Resident ==>
            self.models[k].state == ModelState::Ready
    }

    /// The state after the operation `op` with argument `arg` (a model name,
    /// or a task type for a schedule).
    pub open spec fn after_op(self, op: SchedulerOp, arg: Seq<char>) -> SchedulerView {
        match op {
            SchedulerOp::Load => self.after_load(arg),
            SchedulerOp::Unload => self.after_unload(arg),
            SchedulerOp::Get => self.after_get(arg),
            SchedulerOp::Schedule => self.after_loads(required_for(arg)),
        }
    }

    /// The state after the operations `ops`, in order.
    pub open spec fn after_ops(self, ops: Seq<(SchedulerOp, Seq<char>)>) -> SchedulerView
        decreases ops.len(),
    {
        if ops.len() == 0 {
            self
        } else {
            self.after_ops(ops.drop_last()).after_op(ops.last().0, ops.last().1)
        }
    }

    /// No load or inference counter is at its maximum.
    pub open spec fn counters_have_room(self) -> bool {
        forall|k: int| 0 <= k < self.models.len() ==>
            (#[trigger] self.models[k]).load_count < usize::MAX
            && self.models[k].inference_count < usize::MAX
    }
}


// ---------------------------------------------------------------------------
// Lemmas on memory sums
// ---------------------------------------------------------------------------

/// Replacing record `i` changes the memory held by the first `n` models by
/// the difference of what the two records hold, when `i` is among them.
pub proof fn lemma_ready_upto_update(ms: Seq<RegistryView>, i: int, m: RegistryView, n: int)
    requires
        0 <= i < ms.len(),
        n <= ms.len(),
    ensures
        n <= i ==> ready_upto(ms.update(i, m), n) == ready_upto(ms, n),
        n > i ==> ready_upto(ms.update(i, m), n) + held(ms[i]) == ready_upto(ms, n) + held(m),
    decreases n,
{
    if n > 0 {
        lemma_ready_upto_update(ms, i, m, n - 1);
    }
}

/// Replacing record `i` changes the memory held by the ready models by the
/// difference of what the two records hold.
pub proof fn lemma_ready_memory_update(ms: Seq<RegistryView>, i: int, m: RegistryView)
    requires
        0 <= i < ms.len(),
    ensures
        ready_memory(ms.update(i, m)) + held(ms[i]) == ready_memory(ms) + held(m),
{
    lemma_ready_upto_update(ms, i, m, ms.len() as int);
}

/// The memory held by the first `n` models is at most their total memory,
/// and by at least the estimate of model `i < n` less when it is not ready.
pub proof fn lemma_ready_upto_bound(ms: Seq<RegistryView>, n: int, i: int)
    requires
        0 <= n <= ms.len(),
    ensures
        ready_upto(ms, n) <= total_upto(ms, n),
        0 <= i < n && ms[i].state != ModelState::Ready ==> ready_upto(ms, n) + ms[i].estimated_memory <= total_upto(ms, n),
        0 <= i < n && ms[i].state == ModelState::Ready ==> ms[i].estimated_memory <= ready_upto(ms, n),
    decreases n,
{
    if n > 0 {
        lemma_ready_upto_bound(ms, n - 1, i);
    }
}

/// The memory freed before a model is at most the total memory of the
/// models looked at, which grows with their number.
pub proof fn lemma_freed_before_bound(ms: Seq<RegistryView>, c: int, n: int, m: int)
    requires
        0 <= n <= m <= ms.len(),
    ensures
        freed_before(ms, c, n) <= total_upto(ms, n),
        total_upto(ms, n) <= total_upto(ms, m),
    decreases m,
{
    if n < m {
        lemma_freed_before_bound(ms, c, n, m - 1);
    } else if n > 0 {
        lemma_freed_before_bound(ms, c, n - 1, n - 1);
    }
}

/// Two lists that agree on the memory estimates have the same total memory.
pub proof fn lemma_total_upto_same(a: Seq<RegistryView>, b: Seq<RegistryView>, n: int)
    requires
        0 <= n <= a.len(),
        n <= b.len(),
        forall|k: int| 0 <= k < n ==> (#[trigger] a[k]).estimated_memory == b[k].estimated_memory,
    ensures
        total_upto(a, n) == total_upto(b, n),
    decreases n,
{
    if n > 0 {
        lemma_total_upto_same(a, b, n - 1);
    }
}

/// The nine standard models hold 26.5 MB together.
pub proof fn lemma_standard_total()
    ensures
        total_memory(standard_registry()) == 26_500_000,
{
    let r = standard_registry();
    assert(total_upto(r, 0) == 0);
    assert(r[0].estimated_memory == 1_000_000);
    assert(total_upto(r, 1) == 1_000_000);
    assert(total_upto(r, 2) == 1_500_000);
    assert(total_upto(r, 3) == 2_500_000);
    assert(total_upto(r, 4) == 6_500_000);
    assert(total_upto(r, 5) == 18_500_000);
    assert(total_upto(r, 6) == 22_500_000);
    assert(total_upto(r, 7) == 23_500_000);
    assert(total_upto(r, 8) == 25_500_000);
    assert(total_upto(r, 9) == 26_500_000);
}

/// The total memory of a well-formed scheduler is that of the standard
/// registry, so every sum of held memory fits in a `usize`.
pub proof fn lemma_wf_total(s: SchedulerView)
    requires
        s.wf(),
    ensures
        total_memory(s.models) == 26_500_000,
{
    lemma_standard_total();
    assert forall|k: int| 0 <= k < 9 implies (#[trigger] s.models[k]).estimated_memory
        == standard_registry()[k].estimated_memory by {
        assert(same_registration(s.models[k], standard_registry()[k]));
    }
    lemma_total_upto_same(s.models, standard_registry(), 9);
}

/// The names of the standard registry are pairwise distinct.
pub proof fn lemma_standard_names_distinct()
    ensures
        forall|j: int, k: int| 0 <= j < 9 && 0 <= k < 9 && j != k ==>
            standard_registry()[j].name != standard_registry()[k].name,
{
    reveal_strlit("textcnn");
    reveal_strlit("ga");
    reveal_strlit("moe_router");
    reveal_strlit("mamba");
    reveal_strlit("transformer");
    reveal_strlit("encoder");
    reveal_strlit("gnn");
    reveal_strlit("vae");
    reveal_strlit("snn");
    let r = standard_registry();
    assert(r[0].name.len() == 7 && r[0].name[0] == 't');
    assert(r[1].name.len() == 2 && r[1].name[0] == 'g');
    assert(r[2].name.len() == 10 && r[2].name[0] == 'm');
    assert(r[3].name.len() == 5 && r[3].name[0] == 'm');
    assert(r[4].name.len() == 11 && r[4].name[0] == 't');
    assert(r[5].name.len() == 7 && r[5].name[0] == 'e');
    assert(r[6].name.len() == 3 && r[6].name[0] == 'g');
    assert(r[7].name.len() == 3 && r[7].name[0] == 'v');
    assert(r[8].name.len() == 3 && r[8].name[0] == 's');
    assert forall|j: int, k: int| 0 <= j < 9 && 0 <= k < 9 && j != k implies r[j].name != r[k].name by {
        assert(j == 0 || j == 1 || j == 2 || j == 3 || j == 4 || j == 5 || j == 6 || j == 7 || j == 8);
        assert(k == 0 || k == 1 || k == 2 || k == 3 || k == 4 || k == 5 || k == 6 || k == 7 || k == 8);
        if r[j].name == r[k].name {
            assert(r[j].name.len() == r[k].name.len());
            assert(r[j].name[0] == r[k].name[0]);
        }
    }
}

/// In a well-formed scheduler, model `i` is the one whose name is at `i`.
pub proof fn lemma_position(s: SchedulerView, i: int)
    requires
        s.wf(),
        0 <= i < 9,
    ensures
        s.position(s.models[i].name) == i,
{
    lemma_standard_names_distinct();
    assert(same_registration(s.models[i], standard_registry()[i]));
    let k = choose|k: int| 0 <= k < s.models.len() && s.models[k].name == s.models[i].name;
    assert(same_registration(s.models[k], standard_registry()[k]));
}

/// A name is registered in a well-formed scheduler exactly when it is one of
/// the standard names, at the same index.
pub proof fn lemma_position_standard(s: SchedulerView, name: Seq<char>)
    requires
        s.wf(),
    ensures
        s.position(name) >= 0 ==> s.position(name) < 9 && s.models[s.position(name)].name == name,
        forall|k: int| 0 <= k < 9 && standard_registry()[k].name == name ==> s.position(name) == k,
{
    if s.position(name) >= 0 {
        let k = s.position(name);
        assert(0 <= k < s.models.len() && s.models[k].name == name);
    }
    assert forall|k: int| 0 <= k < 9 && standard_registry()[k].name == name implies s.position(name) == k by {
        assert(same_registration(s.models[k], standard_registry()[k]));
        lemma_position(s, k);
    }
}


/// The memory held splits into the shares of resident and on-demand models.
pub proof fn lemma_ready_with_split(ms: Seq<RegistryView>, n: int)
    ensures
        ready_upto_with(ms, LoadStrategy::Resident, n) + ready_upto_with(ms, LoadStrategy::OnDemand, n) == ready_upto(ms, n),
    decreases n,
{
    if n > 0 {
        lemma_ready_with_split(ms, n - 1);
    }
}

/// Loading keeps the registry standard and the memory accounting exact; it
/// only loads the model itself (and counts that load) and unloads auto-unload
/// victims; no inference counter changes.
pub proof fn lemma_after_load_frame(s: SchedulerView, name: Seq<char>)
    requires
        s.wf(),
    ensures
        s.after_load(name).wf(),
        s.after_load(name).models.len() == 9,
        forall|k: int| 0 <= k < 9 ==> same_registration(#[trigger] s.after_load(name).models[k], s.models[k]),
        forall|k: int| 0 <= k < 9 ==> (#[trigger] s.after_load(name).models[k]).inference_count == s.models[k].inference_count,
        forall|k: int| 0 <= k < 9 && k != s.position(name) ==>
            (#[trigger] s.after_load(name).models[k]).load_count == s.models[k].load_count,
        s.position(name) >= 0 ==> s.after_load(name).models[s.position(name)].state == ModelState::Ready,
        s.after_load(name).position(name) == s.position(name),
        s.after_load(name).max_memory == s.max_memory,
        s.after_load(name).unload_permille == s.unload_permille,
        s.after_load(name).default_timeout_ms == s.default_timeout_ms,
        s.after_load(name).warmed_up == s.warmed_up,
{
    let t = s.after_load(name);
    lemma_position_standard(s, name);
    assert forall|k: int| 0 <= k < 9 implies same_registration(#[trigger] t.models[k], standard_registry()[k]) by {
        assert(same_registration(s.models[k], standard_registry()[k]));
    }
    lemma_position_standard(t, name);
    if s.position(name) < 0 {
        if t.position(name) >= 0 {
            let k = t.position(name);
            assert(same_registration(s.models[k], standard_registry()[k]));
            assert(s.models[k].name == name);
        }
    } else {
        let k = s.position(name);
        assert(same_registration(s.models[k], standard_registry()[k]));
    }
}

/// Each model that a task needs is a standard model, named at its standard
/// index, and no model is needed twice.
pub proof fn lemma_required_standard(task: Seq<char>)
    ensures
        required_for(task).len() == required_indices(task).len(),
        required_for(task).len() <= 4,
        forall|j: int| 0 <= j < required_for(task).len() ==> {
            &&& 0 <= #[trigger] required_indices(task)[j] < 9
            &&& required_for(task)[j] == standard_registry()[required_indices(task)[j]].name
        },
        forall|j: int, l: int| 0 <= j < l < required_for(task).len() ==>
            required_indices(task)[j] != required_indices(task)[l],
{
}

/// Each model's estimate is at most the total memory of the models up to it.
pub proof fn lemma_total_upto_ge(ms: Seq<RegistryView>, n: int, i: int)
    requires
        0 <= i < n <= ms.len(),
    ensures
        ms[i].estimated_memory <= total_upto(ms, n),
    decreases n,
{
    if i < n - 1 {
        lemma_total_upto_ge(ms, n - 1, i);
    }
}

// ---------------------------------------------------------------------------
// Laws of the scheduler
// ---------------------------------------------------------------------------

/// Loading is idempotent: loading a model twice in a row has the effect of
/// loading it once.
pub proof fn lemma_load_idempotent(s: SchedulerView, name: Seq<char>)
    requires
        s.wf(),
    ensures
        s.after_load(name).after_load(name) == s.after_load(name),
{
    lemma_after_load_frame(s, name);
}

/// Resident models are never unloaded: a resident model that is ready stays
/// ready through any load and any unload, and unloading a resident model
/// fails and changes nothing.
pub proof fn lemma_resident_stays_loaded(s: SchedulerView, name: Seq<char>, k: int)
    requires
        s.wf(),
        0 <= k < 9,
        s.models[k].strategy == LoadStrategy::Resident,
        s.models[k].state == ModelState::Ready,
    ensures
        s.after_load(name).models[k].state == ModelState::Ready,
        s.after_unload(name).models[k].state == ModelState::Ready,
        s.position(name) == k ==> s.unload_error(name) == Some(resident_msg(name)) && s.after_unload(name) == s,
{
    lemma_after_load_frame(s, name);
    lemma_position_standard(s, name);
}

/// Unloading undoes loading: loading an on-demand model that is not loaded,
/// when no auto-unloading is needed, and then unloading it, gives back the
/// memory accounting and every state of before; only the load counter of the
/// model went up.
pub proof fn lemma_unload_undoes_load(s: SchedulerView, name: Seq<char>)
    requires
        s.wf(),
        s.position(name) >= 0,
        s.models[s.position(name)].strategy == LoadStrategy::OnDemand,
        s.models[s.position(name)].state == ModelState::Unloaded,
        !s.overflows(s.models[s.position(name)].estimated_memory),
    ensures
        s.after_load(name).after_unload(name).current_memory == s.current_memory,
        s.after_load(name).after_unload(name).models == s.models.update(
            s.position(name),
            RegistryView { load_count: s.models[s.position(name)].load_count + 1, ..s.models[s.position(name)] },
        ),
{
    let i = s.position(name);
    let m = s.models[i];
    let t = s.after_load(name);
    lemma_after_load_frame(s, name);
    lemma_position_standard(s, name);
    lemma_ready_memory_update(s.models, i, loaded(m));
    let u = t.after_unload(name);
    lemma_ready_memory_update(t.models, i, unloaded(t.models[i]));
    assert(t.models.update(i, unloaded(t.models[i])) =~= s.models.update(i, RegistryView { load_count: m.load_count + 1, ..m }));
    lemma_ready_memory_update(s.models, i, RegistryView { load_count: m.load_count + 1, ..m });
}

/// What auto-unloading changes: it only unloads on-demand models that were
/// ready, and it takes them lowest priority first: when it unloads a model it
/// also unloads every candidate that comes before it in unloading order.
pub proof fn lemma_auto_unload_order(s: SchedulerView, required: nat, c: int, d: int)
    requires
        0 <= c < s.models.len(),
        0 <= d < s.models.len(),
    ensures
        s.after_auto_unload(required).models[c] != s.models[c] ==> is_candidate(s.models[c]),
        s.after_auto_unload(required).models[c].strategy == s.models[c].strategy,
        is_victim(s.models, c, required) && is_candidate(s.models[d]) && ranked_before(s.models, d, c)
            ==> is_victim(s.models, d, required),
{
    if is_candidate(s.models[d]) && ranked_before(s.models, d, c) {
        lemma_freed_before_monotone(s.models, d, c, s.models.len() as int);
    }
}

/// A model that comes before `c` in unloading order has no more memory freed
/// before it than `c` has.
pub proof fn lemma_freed_before_monotone(ms: Seq<RegistryView>, d: int, c: int, n: int)
    requires
        0 <= d < ms.len(),
        0 <= c < ms.len(),
        n <= ms.len(),
        ranked_before(ms, d, c),
    ensures
        freed_before(ms, d, n) <= freed_before(ms, c, n),
    decreases n,
{
    if n > 0 {
        lemma_freed_before_monotone(ms, d, c, n - 1);
    }
}

/// The memory report adds up: the shares of resident and on-demand models
/// make up the memory held.
pub proof fn lemma_memory_shares_add_up(s: SchedulerView)
    requires
        s.wf(),
    ensures
        s.ready_memory_with(LoadStrategy::Resident) + s.ready_memory_with(LoadStrategy::OnDemand) == s.current_memory,
{
    lemma_ready_with_split(s.models, s.models.len() as int);
}

/// When all registered models fit under the unload threshold together (as
/// with the default configuration), no load ever unloads anything: loading
/// models one after another leaves every model that was ready, or that was
/// loaded on the way, ready.
pub proof fn lemma_loads_keep_ready(s: SchedulerView, names: Seq<Seq<char>>)
    requires
        s.wf(),
        26_500_000 * 1000 <= s.max_memory * s.unload_permille,
    ensures
        s.after_loads(names).wf(),
        s.after_loads(names).max_memory == s.max_memory,
        s.after_loads(names).unload_permille == s.unload_permille,
        forall|k: int| 0 <= k < 9 && s.models[k].state == ModelState::Ready ==>
            (#[trigger] s.after_loads(names).models[k]).state == ModelState::Ready,
        forall|j: int| 0 <= j < names.len() && s.position(names[j]) >= 0 ==>
            s.after_loads(names).models[#[trigger] s.position(names[j])].state == ModelState::Ready,
    decreases names.len(),
{
    if names.len() > 0 {
        let prefix = names.drop_last();
        lemma_loads_keep_ready(s, prefix);
        let t = s.after_loads(prefix);
        let name = names.last();
        lemma_after_load_frame(t, name);
        lemma_wf_total(t);
        let i = t.position(name);
        if i >= 0 && t.models[i].state != ModelState::Ready {
            lemma_ready_upto_bound(t.models, 9, i);
            assert(t.current_memory + t.models[i].estimated_memory <= 26_500_000);
            assert(!t.overflows(t.models[i].estimated_memory)) by (nonlinear_arith)
                requires
                    t.current_memory + t.models[i].estimated_memory <= 26_500_000,
                    26_500_000 * 1000 <= t.max_memory * t.unload_permille;
        }
        lemma_position_standard(s, name);
        lemma_position_standard(t, name);
        assert forall|j: int| 0 <= j < names.len() && s.position(names[j]) >= 0 implies
            s.after_loads(names).models[#[trigger] s.position(names[j])].state == ModelState::Ready by {
            lemma_position_standard(s, names[j]);
            lemma_position_standard(t, names[j]);
            if j < names.len() - 1 {
                assert(prefix[j] == names[j]);
            }
        }
    }
}

/// Replacing model `i` changes the share of each strategy by what the two
/// records hold when they follow it: a model counts toward the share of its
/// own load strategy, whatever its priority or other fields.
pub proof fn lemma_share_update(ms: Seq<RegistryView>, i: int, m: RegistryView, strategy: LoadStrategy, n: int)
    requires
        0 <= i < ms.len(),
        n <= ms.len(),
    ensures
        n <= i ==> ready_upto_with(ms.update(i, m), strategy, n) == ready_upto_with(ms, strategy, n),
        n > i ==> ready_upto_with(ms.update(i, m), strategy, n)
            + (if ms[i].strategy == strategy { held(ms[i]) } else { 0 })
            == ready_upto_with(ms, strategy, n) + (if m.strategy == strategy { held(m) } else { 0 }),
    decreases n,
{
    if n > 0 {
        lemma_share_update(ms, i, m, strategy, n - 1);
    }
}

/// Loading a registered on-demand model that is not ready, when no
/// auto-unloading is needed, adds its estimate to the on-demand share of the
/// memory report and leaves the resident share as it was.
pub proof fn lemma_load_on_demand_share(s: SchedulerView, name: Seq<char>)
    requires
        s.wf(),
        s.position(name) >= 0,
        s.models[s.position(name)].strategy == LoadStrategy::OnDemand,
        s.models[s.position(name)].state != ModelState::Ready,
        !s.overflows(s.models[s.position(name)].estimated_memory),
    ensures
        s.after_load(name).ready_memory_with(LoadStrategy::OnDemand)
            == s.ready_memory_with(LoadStrategy::OnDemand) + s.models[s.position(name)].estimated_memory,
        s.after_load(name).ready_memory_with(LoadStrategy::Resident) == s.ready_memory_with(LoadStrategy::Resident),
{
    let i = s.position(name);
    lemma_position_standard(s, name);
    let m = s.models[i];
    assert(s.after_load(name).models == s.models.update(i, loaded(m)));
    lemma_share_update(s.models, i, loaded(m), LoadStrategy::OnDemand, 9);
    lemma_share_update(s.models, i, loaded(m), LoadStrategy::Resident, 9);
}

/// Unloading a ready on-demand model takes its estimate off the on-demand
/// share and leaves the resident share as it was.
pub proof fn lemma_unload_on_demand_share(s: SchedulerView, name: Seq<char>)
    requires
        s.wf(),
        s.unload_error(name) is None,
    ensures
        s.after_unload(name).ready_memory_with(LoadStrategy::OnDemand) + s.models[s.position(name)].estimated_memory
            == s.ready_memory_with(LoadStrategy::OnDemand),
        s.after_unload(name).ready_memory_with(LoadStrategy::Resident) == s.ready_memory_with(LoadStrategy::Resident),
{
    let i = s.position(name);
    lemma_position_standard(s, name);
    let m = s.models[i];
    lemma_share_update(s.models, i, unloaded(m), LoadStrategy::OnDemand, 9);
    lemma_share_update(s.models, i, unloaded(m), LoadStrategy::Resident, 9);
}

/// The memory a schedule needs does not depend on the state of the
/// scheduler: any two well-formed schedulers, whatever models they have
/// loaded, give the same estimate for the same names (each registered name
/// counts its standard estimate).
pub proof fn lemma_schedule_memory_ignores_states(s: SchedulerView, t: SchedulerView, names: Seq<Seq<char>>)
    requires
        s.wf(),
        t.wf(),
    ensures
        s.schedule_memory(names) == t.schedule_memory(names),
    decreases names.len(),
{
    if names.len() > 0 {
        lemma_schedule_memory_ignores_states(s, t, names.drop_last());
        let name = names.last();
        lemma_position_standard(s, name);
        lemma_position_standard(t, name);
        if s.position(name) >= 0 {
            let k = s.position(name);
            assert(same_registration(s.models[k], standard_registry()[k]));
            assert(same_registration(t.models[k], standard_registry()[k]));
        }
        if t.position(name) >= 0 {
            let k = t.position(name);
            assert(same_registration(s.models[k], standard_registry()[k]));
            assert(same_registration(t.models[k], standard_registry()[k]));
        }
    }
}

/// The memory of a schedule of one model is that model's standard estimate,
/// or nothing for a name that is not registered.
pub proof fn lemma_schedule_memory_single(s: SchedulerView, name: Seq<char>)
    requires
        s.wf(),
    ensures
        forall|k: int| 0 <= k < 9 && standard_registry()[k].name == name ==>
            s.schedule_memory(seq![name]) == #[trigger] standard_registry()[k].estimated_memory,
        (forall|k: int| 0 <= k < 9 ==> #[trigger] standard_registry()[k].name != name) ==> s.schedule_memory(seq![name]) == 0,
{
    lemma_position_standard(s, name);
    let one = seq![name];
    assert(one.drop_last() =~= Seq::<Seq<char>>::empty());
    assert(one.last() == name);
    assert(s.schedule_memory(one.drop_last()) == 0);
    let i = s.position(name);
    assert(s.schedule_memory(one) == if i >= 0 { s.models[i].estimated_memory } else { 0 });
    if i >= 0 {
        assert(same_registration(s.models[i], standard_registry()[i]));
    }
}

/// The memory of a schedule adds up over its parts: scheduling `a` then `b`
/// needs what `a` needs plus what `b` needs.
pub proof fn lemma_schedule_memory_concat(s: SchedulerView, a: Seq<Seq<char>>, b: Seq<Seq<char>>)
    ensures
        s.schedule_memory(a + b) == s.schedule_memory(a) + s.schedule_memory(b),
    decreases b.len(),
{
    if b.len() == 0 {
        assert(a + b =~= a);
    } else {
        lemma_schedule_memory_concat(s, a, b.drop_last());
        assert((a + b).drop_last() =~= a + b.drop_last());
        assert((a + b).last() == b.last());
    }
}

/// Fetching a registered model for an inference counts exactly one inference
/// of that model, whatever its strategy, leaves it ready, and counts none for
/// any other model.
pub proof fn lemma_get_counts_inference(s: SchedulerView, name: Seq<char>)
    requires
        s.wf(),
        s.position(name) >= 0,
    ensures
        s.after_get(name).models[s.position(name)].inference_count == s.models[s.position(name)].inference_count + 1,
        s.after_get(name).models[s.position(name)].state == ModelState::Ready,
        forall|k: int| 0 <= k < 9 && k != s.position(name) ==>
            (#[trigger] s.after_get(name).models[k]).inference_count == s.models[k].inference_count,
{
    lemma_after_load_frame(s, name);
    lemma_position_standard(s, name);
}

/// Loading keeps every resident model ready.
proof fn lemma_load_keeps(s: SchedulerView, name: Seq<char>)
    requires
        s.wf(),
        s.residents_ready(),
    ensures
        s.after_load(name).wf(),
        s.after_load(name).residents_ready(),
{
    lemma_after_load_frame(s, name);
    let t = s.after_load(name);
    assert forall|k: int| 0 <= k < t.models.len() && (#[trigger] t.models[k]).strategy == LoadStrategy::Resident implies
        t.models[k].state == ModelState::Ready by {
        assert(same_registration(t.models[k], s.models[k]));
        lemma_resident_stays_loaded(s, name, k);
    }
}

/// Unloading keeps the registry standard, the memory accounting exact and
/// every resident model ready.
proof fn lemma_unload_keeps(s: SchedulerView, name: Seq<char>)
    requires
        s.wf(),
        s.residents_ready(),
    ensures
        s.after_unload(name).wf(),
        s.after_unload(name).residents_ready(),
{
    let t = s.after_unload(name);
    if s.unload_error(name) is None {
        let i = s.position(name);
        lemma_position_standard(s, name);
        assert forall|k: int| 0 <= k < 9 implies same_registration(#[trigger] t.models[k], standard_registry()[k]) by {
            assert(same_registration(s.models[k], standard_registry()[k]));
        }
    }
    assert forall|k: int| 0 <= k < t.models.len() && (#[trigger] t.models[k]).strategy == LoadStrategy::Resident implies
        t.models[k].state == ModelState::Ready by {
        lemma_resident_stays_loaded(s, name, k);
    }
}

/// Fetching a model for an inference keeps the registry standard, the memory
/// accounting exact and every resident model ready.
proof fn lemma_get_keeps(s: SchedulerView, name: Seq<char>)
    requires
        s.wf(),
        s.residents_ready(),
    ensures
        s.after_get(name).wf(),
        s.after_get(name).residents_ready(),
{
    lemma_load_keeps(s, name);
    lemma_after_load_frame(s, name);
    let l = s.after_load(name);
    let i = s.position(name);
    if i >= 0 {
        lemma_position_standard(s, name);
        let m = l.models[i];
        let counted = RegistryView { inference_count: m.inference_count + 1, ..m };
        lemma_ready_memory_update(l.models, i, counted);
        let t = s.after_get(name);
        assert(t.models == l.models.update(i, counted));
        assert forall|k: int| 0 <= k < 9 implies same_registration(#[trigger] t.models[k], standard_registry()[k]) by {
            assert(same_registration(l.models[k], standard_registry()[k]));
        }
        assert forall|k: int| 0 <= k < t.models.len() && (#[trigger] t.models[k]).strategy == LoadStrategy::Resident implies
            t.models[k].state == ModelState::Ready by {
            assert(l.models[k].strategy == LoadStrategy::Resident);
        }
    }
}

/// Loading several models in turn keeps the registry standard, the memory
/// accounting exact and every resident model ready.
proof fn lemma_loads_keep(s: SchedulerView, names: Seq<Seq<char>>)
    requires
        s.wf(),
        s.residents_ready(),
    ensures
        s.after_loads(names).wf(),
        s.after_loads(names).residents_ready(),
    decreases names.len(),
{
    if names.len() > 0 {
        lemma_loads_keep(s, names.drop_last());
        lemma_load_keeps(s.after_loads(names.drop_last()), names.last());
    }
}

/// Every state that a scheduler reaches, from a well-formed state whose
/// resident models are ready (as `new` gives), through any sequence of loads,
/// unloads, fetches and schedules, has the nine standard models, holds
/// exactly the memory of its ready models, and keeps every resident model
/// ready. So the memory held never falls short of what an unload gives back.
pub proof fn lemma_reachable_states(s: SchedulerView, ops: Seq<(SchedulerOp, Seq<char>)>)
    requires
        s.wf(),
        s.residents_ready(),
    ensures
        s.after_ops(ops).wf(),
        s.after_ops(ops).models.len() == 9,
        s.after_ops(ops).current_memory == ready_memory(s.after_ops(ops).models),
        s.after_ops(ops).residents_ready(),
    decreases ops.len(),
{
    if ops.len() > 0 {
        lemma_reachable_states(s, ops.drop_last());
        let t = s.after_ops(ops.drop_last());
        let (op, arg) = ops.last();
        match op {
            SchedulerOp::Load => lemma_load_keeps(t, arg),
            SchedulerOp::Unload => lemma_unload_keeps(t, arg),
            SchedulerOp::Get => lemma_get_keeps(t, arg),
            SchedulerOp::Schedule => lemma_loads_keep(t, required_for(arg)),
        }
    }
}

/// When every candidate visited before `c` is a victim, the victims free at
/// least what is freed before `c`.
pub proof fn lemma_freed_before_le_victims(ms: Seq<RegistryView>, required: nat, c: int, n: int)
    requires
        0 <= c < ms.len(),
        n <= ms.len(),
        forall|k: int| 0 <= k < n && is_candidate(ms[k]) && ranked_before(ms, k, c) ==> #[trigger] is_victim(ms, k, required),
    ensures
        freed_before(ms, c, n) <= victim_memory(ms, required, n),
    decreases n,
{
    if n > 0 {
        lemma_freed_before_le_victims(ms, required, c, n - 1);
    }
}

/// A candidate `d` visited before `c` has fewer candidates visited before it
/// than `c` has.
pub proof fn lemma_count_before_decreases(ms: Seq<RegistryView>, d: int, c: int, n: int)
    requires
        0 <= d < ms.len(),
        0 <= c < ms.len(),
        n <= ms.len(),
        is_candidate(ms[d]),
        ranked_before(ms, d, c),
    ensures
        count_before(ms, d, n) <= count_before(ms, c, n),
        n > d ==> count_before(ms, d, n) < count_before(ms, c, n),
    decreases n,
{
    if n > 0 {
        lemma_count_before_decreases(ms, d, c, n - 1);
    }
}

/// Auto-unloading frees enough: unless it unloads every candidate, the
/// models it unloads free at least the memory asked for.
pub proof fn lemma_auto_unload_frees_enough(ms: Seq<RegistryView>, required: nat, c: int)
    requires
        0 <= c < ms.len(),
        is_candidate(ms[c]),
        !is_victim(ms, c, required),
    ensures
        victim_memory(ms, required, ms.len() as int) >= required,
    decreases count_before(ms, c, ms.len() as int),
{
    let n = ms.len() as int;
    if forall|k: int| 0 <= k < n && is_candidate(ms[k]) && ranked_before(ms, k, c) ==> #[trigger] is_victim(ms, k, required) {
        lemma_freed_before_le_victims(ms, required, c, n);
    } else {
        let d = choose|d: int| 0 <= d < n && is_candidate(ms[d]) && ranked_before(ms, d, c) && !#[trigger] is_victim(ms, d, required);
        lemma_count_before_decreases(ms, d, c, n);
        lemma_auto_unload_frees_enough(ms, required, d);
    }
}

/// Auto-unloading takes exactly the victims' memory off the memory held.
pub proof fn lemma_auto_unload_frees_victims(s: SchedulerView, required: nat, n: int)
    requires
        0 <= n <= s.models.len(),
    ensures
        ready_upto(s.after_auto_unload(required).models, n) + victim_memory(s.models, required, n) == ready_upto(s.models, n),
    decreases n,
{
    if n > 0 {
        lemma_auto_unload_frees_victims(s, required, n - 1);
    }
}

// ---------------------------------------------------------------------------
// The scheduler
// ---------------------------------------------------------------------------

/// The plan for an inference task.
#[derive(Debug)]
pub struct InferenceSchedule {
    /// Task type
    pub task_type: String,
    /// Models the task needs
    pub required_models: Vec<String>,
    /// Models loaded successfully
    pub loaded_models: Vec<String>,
    /// Models that failed to load, with their errors
    pub load_errors: Vec<String>,
    /// Estimated memory of the needed models
    pub estimated_memory: usize,
    /// Inference timeout (ms)
    pub timeout_ms: u64,
}

/// The names of the models that a task type needs.
fn required_models_for(task_type: &str) -> (v: Vec<&'static str>)
    ensures
        str_views(v@) == required_for(task_type@),
{
    let mut v: Vec<&'static str> = Vec::new();
    if str_eq(task_type, "security") {
        v.push("moe_router");
        v.push("textcnn");
        v.push("mamba");
    } else if str_eq(task_type, "semantic") {
        v.push("moe_router");
        v.push("encoder");
        v.push("mamba");
    } else if str_eq(task_type, "language") {
        v.push("moe_router");
        v.push("transformer");
        v.push("mamba");
    } else if str_eq(task_type, "causal") {
        v.push("moe_router");
        v.push("gnn");
        v.push("mamba");
        v.push("vae");
    } else if str_eq(task_type, "decision") {
        v.push("moe_router");
        v.push("mamba");
        v.push("gnn");
        v.push("snn");
    } else {
        v.push("moe_router");
        v.push("textcnn");
        v.push("mamba");
    }
    assert(str_views(v@) =~= required_for(task_type@));
    v
}

/// The figures of a memory report.
#[derive(Debug)]
pub struct MemoryUsage {
    /// Memory held by loaded models (bytes)
    pub total: usize,
    /// Maximum memory (bytes)
    pub max: u64,
    /// Memory held by loaded resident models
    pub resident: usize,
    /// Memory held by loaded on-demand models
    pub on_demand: usize,
    /// Whether warm-up ran
    pub warmed_up: bool,
}

/// Model scheduler: loads and unloads models, keeps track of the memory they
/// hold and schedules the models that an inference task needs.
pub struct ModelScheduler {
    /// Configuration
    config: SchedulerConfig,
    /// Registered models, in registration order
    models: Vec<ModelRegistry>,
    /// Memory held by the loaded models
    current_memory: usize,
    /// Whether the resident models were warmed up
    warmed_up: bool,
}

impl View for ModelScheduler {
    type V = SchedulerView;

    closed spec fn view(&self) -> SchedulerView {
        SchedulerView {
            models: views(self.models@),
            current_memory: self.current_memory as nat,
            warmed_up: self.warmed_up,
            max_memory: self.config.max_memory as nat,
            unload_permille: self.config.memory_unload_permille as nat,
            default_timeout_ms: self.config.default_timeout_ms as nat,
        }
    }
}

impl ModelScheduler {
    /// Creates the scheduler: registers the standard models and, as the
    /// default configuration asks, warms up the resident ones.
    pub fn new() -> (s: ModelScheduler)
        ensures
            s@.wf(),
            s@.models == standard_registry().map_values(|m: RegistryView| warmed(m)),
            s@.current_memory == 1_500_000,
            s@.warmed_up,
            s@.residents_ready(),
            s@.max_memory == 6 * 1024 * 1024 * 1024,
            s@.unload_permille == 850,
            s@.default_timeout_ms == 1000,
    {
        let config = SchedulerConfig::default();
        let mut scheduler = ModelScheduler {
            config,
            models: Vec::new(),
            current_memory: 0,
            warmed_up: false,
        };
        scheduler.register_all_models();
        proof {
            let r = standard_registry();
            assert(views(scheduler.models@) == r);
            assert(ready_upto(r, 0) == 0);
            assert(ready_upto(r, 1) == 0);
            assert(ready_upto(r, 2) == 0);
            assert(ready_upto(r, 3) == 0);
            assert(ready_upto(r, 4) == 0);
            assert(ready_upto(r, 5) == 0);
            assert(ready_upto(r, 6) == 0);
            assert(ready_upto(r, 7) == 0);
            assert(ready_upto(r, 8) == 0);
            assert(ready_upto(r, 9) == 0);
            assert(scheduler@.wf());
            assert(scheduler@.counters_have_room());
        }
        if scheduler.config.warmup_on_start {
            scheduler.warmup();
        }
        proof {
            let r = standard_registry();
            let w = r.map_values(|m: RegistryView| warmed(m));
            assert(ready_upto(w, 0) == 0);
            assert(ready_upto(w, 1) == 1_000_000);
            assert(ready_upto(w, 2) == 1_500_000);
            assert(ready_upto(w, 3) == 1_500_000);
            assert(ready_upto(w, 4) == 1_500_000);
            assert(ready_upto(w, 5) == 1_500_000);
            assert(ready_upto(w, 6) == 1_500_000);
            assert(ready_upto(w, 7) == 1_500_000);
            assert(ready_upto(w, 8) == 1_500_000);
            assert(ready_upto(w, 9) == 1_500_000);
        }
        scheduler
    }

    /// Registers the standard models: two resident, seven on demand.
    fn register_all_models(&mut self)
        requires
            old(self).models@.len() == 0,
            old(self).current_memory == 0,
        ensures
            views(final(self).models@) == standard_registry(),
            final(self).current_memory == 0,
            final(self).warmed_up == old(self).warmed_up,
            final(self).config == old(self).config,
    {
        proof {
            lemma_standard_names_distinct();
        }
        let ghost r = standard_registry();
        self.register(ModelRegistry::resident("textcnn", 1_000_000, 1));
        assert(views(self.models@) =~= r.take(1));
        self.register(ModelRegistry::resident("ga", 500_000, 2));
        assert(views(self.models@) =~= r.take(2));
        self.register(ModelRegistry::on_demand("moe_router", 1_000_000, 3));
        assert(views(self.models@) =~= r.take(3));
        self.register(ModelRegistry::on_demand("mamba", 4_000_000, 4));
        assert(views(self.models@) =~= r.take(4));
        self.register(ModelRegistry::on_demand("transformer", 12_000_000, 5));
        assert(views(self.models@) =~= r.take(5));
        self.register(ModelRegistry::on_demand("encoder", 4_000_000, 6));
        assert(views(self.models@) =~= r.take(6));
        self.register(ModelRegistry::on_demand("gnn", 1_000_000, 7));
        assert(views(self.models@) =~= r.take(7));
        self.register(ModelRegistry::on_demand("vae", 2_000_000, 8));
        assert(views(self.models@) =~= r.take(8));
        self.register(ModelRegistry::on_demand("snn", 1_000_000, 9));
        assert(views(self.models@) =~= r);
    }

    /// Registers a model under a name that is not yet registered.
    fn register(&mut self, model: ModelRegistry)
        requires
            forall|k: int| 0 <= k < old(self).models@.len() ==> (#[trigger] old(self).models@[k]).name@ != model.name@,
        ensures
            final(self).models@ == old(self).models@.push(model),
            final(self).current_memory == old(self).current_memory,
            final(self).warmed_up == old(self).warmed_up,
            final(self).config == old(self).config,
    {
        self.models.push(model);
    }

    /// Loads every resident model that is not loaded yet.
    fn warmup(&mut self)
        requires
            old(self)@.wf(),
            old(self)@.counters_have_room(),
        ensures
            final(self)@ == (SchedulerView {
                models: old(self)@.models.map_values(|m: RegistryView| warmed(m)),
                current_memory: ready_memory(old(self)@.models.map_values(|m: RegistryView| warmed(m))),
                warmed_up: true,
                ..old(self)@
            }),
            final(self)@.wf(),
    {
        let ghost start = self@;
        let ghost target = start.models.map_values(|m: RegistryView| warmed(m));
        let n = self.models.len();
        proof {
            lemma_wf_total(start);
        }
        for c in 0..n
            invariant
                n == 9,
                self.models@.len() == 9,
                start.wf(),
                start.counters_have_room(),
                target == start.models.map_values(|m: RegistryView| warmed(m)),
                forall|k: int| 0 <= k < c ==> self@.models[k] == target[k],
                forall|k: int| c <= k < 9 ==> self@.models[k] == start.models[k],
                self@.current_memory == ready_memory(self@.models),
                self@.max_memory == start.max_memory,
                self@.unload_permille == start.unload_permille,
                self@.default_timeout_ms == start.default_timeout_ms,
                self@.warmed_up == start.warmed_up,
                total_memory(self@.models) == 26_500_000,
        {
            if self.models[c].strategy == LoadStrategy::Resident && self.models[c].state == ModelState::Unloaded {
                let ghost before = self@.models;
                proof {
                    lemma_ready_upto_bound(before, 9, c as int);
                    lemma_ready_memory_update(before, c as int, loaded(before[c as int]));
                }
                assert(start.models[c as int].load_count < usize::MAX);
                let memory = self.models[c].estimated_memory;
                self.models[c].state = ModelState::Ready;
                self.current_memory = self.current_memory + memory;
                self.models[c].load_count = self.models[c].load_count + 1;
                assert(self@.models =~= before.update(c as int, loaded(before[c as int])));
                proof {
                    lemma_total_upto_same(self@.models, before, 9);
                }
            }
        }
        self.warmed_up = true;
        assert(self@.models =~= target);
    }

    /// Fetches the model called `name` for an inference: loads it if needed,
    /// counts the inference and returns its state.
    pub fn get_model(&mut self, name: &str) -> (r: Result<ModelState, String>)
        requires
            old(self)@.wf(),
            old(self)@.can_infer(name@),
        ensures
            final(self)@ == old(self)@.after_get(name@),
            final(self)@.wf(),
            r is Ok <==> old(self)@.position(name@) >= 0,
            r matches Ok(state) ==> state == ModelState::Ready,
            r matches Err(e) ==> e@ == not_registered_msg(name@),
    {
        let ghost start = self@;
        match self.load_model(name) {
            Ok(_) => {},
            Err(e) => {
                return Err(e);
            },
        }
        let ghost loaded_state = self@;
        let i = match self.find(name) {
            Some(i) => i,
            None => {
                proof {
                    lemma_position_standard(start, name@);
                    lemma_position_standard(loaded_state, name@);
                }
                return Err(concat3("模型 '", name, "' 未注册"));
            },
        };
        proof {
            lemma_position_standard(start, name@);
            lemma_position_standard(loaded_state, name@);
            lemma_after_load_frame(start, name@);
        }
        let ghost before = self@.models;
        let ghost counted = RegistryView { inference_count: before[i as int].inference_count + 1, ..before[i as int] };
        proof {
            lemma_ready_memory_update(before, i as int, counted);
        }
        self.models[i].inference_count = self.models[i].inference_count + 1;
        assert(self@.models =~= before.update(i as int, counted));
        assert(self@.models =~= start.after_get(name@).models);
        Ok(self.models[i].state)
    }

    /// The registration record of the model called `name`, if registered.
    pub fn registry(&self, name: &str) -> (r: Option<&ModelRegistry>)
        requires
            self@.wf(),
        ensures
            match r {
                Some(m) => self@.position(name@) >= 0 && m@ == self@.models[self@.position(name@)],
                None => self@.position(name@) == -1,
            },
    {
        match self.find(name) {
            Some(i) => Some(&self.models[i]),
            None => None,
        }
    }

    /// Name, strategy, state and inference count of every model, in
    /// registration order.
    pub fn list_models(&self) -> (r: Vec<(String, LoadStrategy, ModelState, usize)>)
        ensures
            r@.len() == self@.models.len(),
            forall|k: int| 0 <= k < r@.len() ==> {
                &&& (#[trigger] r@[k]).0@ == self@.models[k].name
                &&& r@[k].1 == self@.models[k].strategy
                &&& r@[k].2 == self@.models[k].state
                &&& r@[k].3 == self@.models[k].inference_count
            },
    {
        let mut r: Vec<(String, LoadStrategy, ModelState, usize)> = Vec::new();
        let n = self.models.len();
        for k in 0..n
            invariant
                n == self.models@.len(),
                r@.len() == k,
                forall|j: int| 0 <= j < k ==> {
                    &&& (#[trigger] r@[j]).0@ == self@.models[j].name
                    &&& r@[j].1 == self@.models[j].strategy
                    &&& r@[j].2 == self@.models[j].state
                    &&& r@[j].3 == self@.models[j].inference_count
                },
        {
            let m = &self.models[k];
            r.push((m.name.clone(), m.strategy, m.state, m.inference_count));
        }
        r
    }

    /// The figures of the memory report: memory held, maximum memory, the
    /// shares of resident and on-demand models, and whether warm-up ran.
    pub fn memory_usage(&self) -> (u: MemoryUsage)
        requires
            self@.wf(),
        ensures
            u.total as nat == self@.current_memory,
            u.max as nat == self@.max_memory,
            u.resident as nat == self@.ready_memory_with(LoadStrategy::Resident),
            u.on_demand as nat == self@.ready_memory_with(LoadStrategy::OnDemand),
            u.warmed_up == self@.warmed_up,
    {
        let n = self.models.len();
        let mut resident: usize = 0;
        let mut on_demand: usize = 0;
        proof {
            lemma_wf_total(self@);
        }
        for k in 0..n
            invariant
                n == 9,
                self.models@.len() == 9,
                self@.wf(),
                total_memory(self@.models) == 26_500_000,
                resident as nat == ready_upto_with(self@.models, LoadStrategy::Resident, k as int),
                on_demand as nat == ready_upto_with(self@.models, LoadStrategy::OnDemand, k as int),
        {
            proof {
                lemma_ready_with_split(self@.models, k + 1);
                lemma_ready_upto_bound(self@.models, k + 1, 0);
                lemma_freed_before_bound(self@.models, 0, k + 1, 9);
            }
            let m = &self.models[k];
            if m.state == ModelState::Ready {
                if m.strategy == LoadStrategy::Resident {
                    resident = resident + m.estimated_memory;
                } else {
                    on_demand = on_demand + m.estimated_memory;
                }
            }
        }
        MemoryUsage {
            total: self.current_memory,
            max: self.config.max_memory,
            resident,
            on_demand,
            warmed_up: self.warmed_up,
        }
    }

    /// Schedules the models that a task type needs: loads each of them, in
    /// order, and reports which loaded, which failed and the memory they need.
    pub fn schedule_inference(&mut self, task_type: &str) -> (r: InferenceSchedule)
        requires
            old(self)@.wf(),
            old(self)@.counters_have_room(),
        ensures
            final(self)@ == old(self)@.after_loads(required_for(task_type@)),
            final(self)@.wf(),
            r.task_type@ == task_type@,
            string_views(r.required_models@) == required_for(task_type@),
            string_views(r.loaded_models@) == required_for(task_type@),
            r.load_errors@.len() == 0,
            r.estimated_memory == old(self)@.schedule_memory(required_for(task_type@)),
            r.timeout_ms == old(self)@.default_timeout_ms,
    {
        let ghost start = self@;
        let ghost names = required_for(task_type@);
        let ghost idx = required_indices(task_type@);
        proof {
            lemma_required_standard(task_type@);
        }
        let required_models = required_models_for(task_type);
        let estimated_memory = self.calculate_schedule_memory(&required_models);
        let mut loaded_models: Vec<String> = Vec::new();
        let mut load_errors: Vec<String> = Vec::new();
        let n = required_models.len();
        for k in 0..n
            invariant
                n == required_models@.len(),
                str_views(required_models@) == names,
                names.len() == idx.len(),
                names.len() <= 4,
                forall|j: int| 0 <= j < names.len() ==> {
                    &&& 0 <= #[trigger] idx[j] < 9
                    &&& names[j] == standard_registry()[idx[j]].name
                },
                forall|j: int, l: int| 0 <= j < l < names.len() ==> idx[j] != idx[l],
                self@.wf(),
                self@ == start.after_loads(names.take(k as int)),
                forall|j: int| k <= j < names.len() ==> self@.models[#[trigger] idx[j]].load_count == start.models[idx[j]].load_count,
                start.counters_have_room(),
                start.wf(),
                self@.default_timeout_ms == start.default_timeout_ms,
                string_views(loaded_models@) == names.take(k as int),
                load_errors@.len() == 0,
        {
            let name = required_models[k];
            assert(name@ == names[k as int]);
            let ghost before = self@;
            proof {
                lemma_position_standard(before, name@);
                lemma_after_load_frame(before, name@);
                assert(start.models[idx[k as int]].load_count < usize::MAX);
                assert(names.take(k + 1).drop_last() =~= names.take(k as int));
            }
            match self.load_model(name) {
                Ok(_) => {
                    loaded_models.push(name.to_owned());
                },
                Err(e) => {
                    load_errors.push(concat3(name, ": ", e.as_str()));
                },
            }
            assert(string_views(loaded_models@) =~= names.take(k + 1));
            assert forall|j: int| k + 1 <= j < names.len() implies self@.models[#[trigger] idx[j]].load_count
                == start.models[idx[j]].load_count by {
                assert(idx[j] != idx[k as int]);
            }
        }
        assert(names.take(n as int) =~= names);
        let mut required: Vec<String> = Vec::new();
        for k in 0..n
            invariant
                n == required_models@.len(),
                str_views(required_models@) == names,
                required@.len() == k,
                names.len() == n,
                string_views(required@) == names.take(k as int),
        {
            let owned = required_models[k].to_owned();
            assert(str_views(required_models@)[k as int] == required_models@[k as int]@);
            required.push(owned);
            assert(string_views(required@) =~= names.take(k + 1));
        }
        InferenceSchedule {
            task_type: task_type.to_owned(),
            required_models: required,
            loaded_models,
            load_errors,
            estimated_memory,
            timeout_ms: self.config.default_timeout_ms,
        }
    }

    /// Memory the models called `names` need, counting the registered ones.
    fn calculate_schedule_memory(&self, names: &Vec<&str>) -> (total: usize)
        requires
            self@.wf(),
            names@.len() <= 4,
        ensures
            total as nat == self@.schedule_memory(str_views(names@)),
    {
        let ghost ns = str_views(names@);
        let mut total: usize = 0;
        let n = names.len();
        proof {
            lemma_wf_total(self@);
        }
        for k in 0..n
            invariant
                n == names@.len(),
                n <= 4,
                ns == str_views(names@),
                self@.wf(),
                total_memory(self@.models) == 26_500_000,
                total as nat == self@.schedule_memory(ns.take(k as int)),
                total <= k * 26_500_000,
        {
            assert(ns.take(k + 1).drop_last() =~= ns.take(k as int));
            match self.find(names[k]) {
                Some(i) => {
                    proof {
                        lemma_total_upto_ge(self@.models, 9, i as int);
                    }
                    total = total + self.models[i].estimated_memory;
                },
                None => {},
            }
        }
        assert(ns.take(n as int) =~= ns);
        total
    }

    /// The index of the model called `name`.
    fn find(&self, name: &str) -> (r: Option<usize>)
        requires
            self@.wf(),
        ensures
            match r {
                Some(i) => i == self@.position(name@) && i < 9,
                None => self@.position(name@) == -1,
            },
    {
        let n = self.models.len();
        proof {
            lemma_position_standard(self@, name@);
        }
        for i in 0..n
            invariant
                n == self.models@.len(),
                self@.wf(),
                forall|k: int| 0 <= k < i ==> self@.models[k].name != name@,
        {
            if str_eq(self.models[i].name.as_str(), name) {
                proof {
                    lemma_position(self@, i as int);
                }
                return Some(i);
            }
        }
        None
    }

    /// Whether adding `additional` bytes would take memory above the unload
    /// threshold.
    fn check_memory_overflow(&self, additional: usize) -> (r: bool)
        ensures
            r == self@.overflows(additional as nat),
    {
        let wanted = (self.current_memory as u128 + additional as u128) * 1000;
        let max = self.config.max_memory as u128;
        let permille = self.config.memory_unload_permille as u128;
        assert(max * permille <= 0xffff_ffff_ffff_ffff_ffff_ffff_ffff_ffffu128) by (nonlinear_arith)
            requires max <= 0xffff_ffff_ffff_ffffu128, permille <= 0xffff_ffff_ffff_ffffu128;
        let limit = max * permille;
        wanted > limit
    }

    /// Loads the model called `name`. A model that is ready stays as it is.
    /// When loading would take memory above the unload threshold, on-demand
    /// models are unloaded first to free the model's estimate. Fails only for
    /// a name that is not registered.
    pub fn load_model(&mut self, name: &str) -> (r: Result<(), String>)
        requires
            old(self)@.wf(),
            old(self)@.can_load(name@),
        ensures
            final(self)@ == old(self)@.after_load(name@),
            final(self)@.wf(),
            r is Ok <==> old(self)@.position(name@) >= 0,
            r matches Err(e) ==> e@ == not_registered_msg(name@),
    {
        let ghost start = self@;
        let i = match self.find(name) {
            None => {
                return Err(concat3("模型 '", name, "' 未注册"));
            },
            Some(i) => i,
        };
        if self.models[i].state == ModelState::Ready {
            return Ok(());
        }
        let memory = self.models[i].estimated_memory;
        if self.check_memory_overflow(memory) {
            self.auto_unload_for(memory);
        }
        let ghost freed = self@;
        assert(freed.models[i as int] == start.models[i as int]);
        proof {
            lemma_wf_total(freed);
            lemma_ready_upto_bound(freed.models, 9, i as int);
            lemma_ready_memory_update(freed.models, i as int, loaded(freed.models[i as int]));
        }
        self.models[i].state = ModelState::Loading;
        self.models[i].state = ModelState::Ready;
        self.current_memory = self.current_memory + memory;
        self.models[i].load_count = self.models[i].load_count + 1;
        assert(self@.models =~= freed.models.update(i as int, loaded(freed.models[i as int])));
        Ok(())
    }

    /// Unloads the on-demand model called `name`. Fails for a name that is
    /// not registered, for a resident model and for a model that is not ready.
    pub fn unload_model(&mut self, name: &str) -> (r: Result<(), String>)
        requires
            old(self)@.wf(),
        ensures
            final(self)@ == old(self)@.after_unload(name@),
            final(self)@.wf(),
            r is Ok <==> old(self)@.unload_error(name@) is None,
            r matches Err(e) ==> old(self)@.unload_error(name@) == Some(e@),
    {
        let ghost start = self@;
        let i = match self.find(name) {
            None => {
                return Err(concat3("模型 '", name, "' 未注册"));
            },
            Some(i) => i,
        };
        if self.models[i].strategy == LoadStrategy::Resident {
            return Err(concat3("模型 '", name, "' 是常驻模型，不可卸载"));
        }
        if self.models[i].state != ModelState::Ready {
            let mut message = concat3("模型 '", name, "' 当前状态为 ");
            message.append(self.models[i].state.label());
            message.append("，无法卸载");
            return Err(message);
        }
        proof {
            lemma_ready_upto_bound(start.models, 9, i as int);
            lemma_ready_memory_update(start.models, i as int, unloaded(start.models[i as int]));
        }
        let memory = self.models[i].estimated_memory;
        self.models[i].state = ModelState::Unloaded;
        self.current_memory = self.current_memory - memory;
        assert(self@.models =~= start.models.update(i as int, unloaded(start.models[i as int])));
        Ok(())
    }

    /// Unloads on-demand models, lowest priority first, until at least
    /// `required_space` bytes are freed or no loaded on-demand model is left.
    fn auto_unload_for(&mut self, required_space: usize)
        requires
            old(self)@.wf(),
        ensures
            final(self)@ == old(self)@.after_auto_unload(required_space as nat),
            final(self)@.wf(),
    {
        let ghost start = self@;
        let ghost target = start.after_auto_unload(required_space as nat);
        let n = self.models.len();
        proof {
            lemma_wf_total(start);
        }
        // Which models to unload, decided on the state before any unloading.
        let mut victims: Vec<bool> = Vec::new();
        for c in 0..n
            invariant
                n == 9,
                self.models@.len() == n,
                self@ == start,
                start.wf(),
                total_memory(start.models) == 26_500_000,
                victims@.len() == c,
                forall|k: int| 0 <= k < c ==> victims@[k] == is_victim(start.models, k, required_space as nat),
        {
            let cm = &self.models[c];
            let candidate = cm.strategy == LoadStrategy::OnDemand && cm.state == ModelState::Ready;
            if !candidate {
                victims.push(false);
            } else {
                let mut freed: usize = 0;
                for d in 0..n
                    invariant
                        n == 9,
                        self.models@.len() == n,
                        self@ == start,
                        c < n,
                        cm@ == start.models[c as int],
                        total_memory(start.models) == 26_500_000,
                        freed == freed_before(start.models, c as int, d as int),
                {
                    proof {
                        lemma_freed_before_bound(start.models, c as int, d + 1, 9);
                    }
                    let dm = &self.models[d];
                    assert(start.models[d as int] == self.models@[d as int]@);
                    if dm.strategy == LoadStrategy::OnDemand && dm.state == ModelState::Ready
                        && (dm.priority > cm.priority || (dm.priority == cm.priority && d < c)) {
                        freed = freed + dm.estimated_memory;
                    }
                }
                victims.push(freed < required_space);
            }
        }
        // Unload them.
        for c in 0..n
            invariant
                n == 9,
                victims@.len() == 9,
                forall|k: int| 0 <= k < 9 ==> victims@[k] == is_victim(start.models, k, required_space as nat),
                start.wf(),
                target == start.after_auto_unload(required_space as nat),
                self@.models.len() == 9,
                forall|k: int| 0 <= k < c ==> self@.models[k] == target.models[k],
                forall|k: int| c <= k < 9 ==> self@.models[k] == start.models[k],
                self@.current_memory == ready_memory(self@.models),
                self@.max_memory == start.max_memory,
                self@.unload_permille == start.unload_permille,
                self@.default_timeout_ms == start.default_timeout_ms,
                self@.warmed_up == start.warmed_up,
        {
            if victims[c] {
                let ghost before = self@.models;
                proof {
                    lemma_ready_memory_update(before, c as int, unloaded(before[c as int]));
                    lemma_ready_upto_bound(before, 9, c as int);
                }
                let memory = self.models[c].estimated_memory;
                self.models[c].state = ModelState::Unloaded;
                self.current_memory = self.current_memory - memory;
                assert(self@.models =~= before.update(c as int, unloaded(before[c as int])));
            }
        }
        assert(self@.models =~= target.models);
    }
}

} // verus!
