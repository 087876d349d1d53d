//! The bookkeeping of an actor's context: the abort handles of its streams
//! and timers, and the protocol that forwards a stream to the actor.
use futures::future::AbortHandle;
use slab::Slab;
use vstd::prelude::*;

verus! {

/// Declares `slab::Slab`, which keeps the abort handles by key.
#[verifier::external_type_specification]
#[verifier::external_body]
#[verifier::reject_recursive_types(T)]
pub struct ExSlab<T>(Slab<T>);

/// Declares `futures::future::AbortHandle`, which stops a spawned task.
#[verifier::external_type_specification]
#[verifier::external_body]
pub struct ExAbortHandle(AbortHandle);

/// The keys that a slab of abort handles holds.
pub uninterp spec fn slab_keys(s: Slab<AbortHandle>) -> Set<usize>;

/// An empty slab.
///
/// Wraps `Slab::new`, which builds a slab with no entries.
#[verifier::external_body]
fn slab_new() -> (s: Slab<AbortHandle>)
    ensures
        slab_keys(s) == Set::<usize>::empty(),
{
    Slab::new()
}

/// Stores a handle under a key that was vacant and returns that key.
///
/// Wraps `Slab::insert`, whose source stores the value at the slab's next
/// vacant key, marks it occupied and returns it; no other key changes.
#[verifier::external_body]
fn slab_insert(s: &mut Slab<AbortHandle>, handle: AbortHandle) -> (key: usize)
    ensures
        !slab_keys(*old(s)).contains(key),
        slab_keys(*final(s)) == slab_keys(*old(s)).insert(key),
{
    s.insert(handle)
}

/// Whether a key holds a handle.
///
/// Wraps `Slab::contains`, whose source answers whether the entry at the
/// key is occupied.
#[verifier::external_body]
fn slab_contains(s: &Slab<AbortHandle>, key: usize) -> (present: bool)
    ensures
        present == slab_keys(*s).contains(key),
{
    s.contains(key)
}

/// The number of stored handles.
///
/// Wraps `Slab::len`, whose source returns the count of occupied entries.
#[verifier::external_body]
fn slab_len(s: &Slab<AbortHandle>) -> (n: usize)
    ensures
        n == slab_keys(*s).len(),
{
    s.len()
}

/// Drops the handle stored under an occupied key.
///
/// Wraps `Slab::remove`, which panics on a vacant key and otherwise makes
/// the key vacant and returns its value, here dropped without aborting it.
#[verifier::external_body]
fn slab_remove(s: &mut Slab<AbortHandle>, key: usize)
    requires
        slab_keys(*old(s)).contains(key),
    ensures
        slab_keys(*final(s)) == slab_keys(*old(s)).remove(key),
{
    s.remove(key);
}

/// Takes every handle out of the slab.
///
/// Wraps `Slab::drain`, whose source empties the slab and yields each stored
/// value once; the values are collected in the order it yields them.
#[verifier::external_body]
fn slab_drain(s: &mut Slab<AbortHandle>) -> (handles: Vec<AbortHandle>)
    ensures
        slab_keys(*final(s)) == Set::<usize>::empty(),
        handles@.len() == slab_keys(*old(s)).len(),
{
    s.drain().collect()
}

/// Aborts the task that a handle controls.
///
/// Wraps `AbortHandle::abort`; what it does to the task is outside this
/// library, so nothing is stated.
#[verifier::external_body]
fn abort_task(handle: &AbortHandle) {
    handle.abort()
}

/// The abort handles of the tasks an actor spawned for its streams or its
/// timers, each under the key it was registered with.
pub struct HandleRegistry {
    slots: Slab<AbortHandle>,
}

impl View for HandleRegistry {
    type V = Set<usize>;

    closed spec fn view(&self) -> Set<usize> {
        slab_keys(self.slots)
    }
}

impl HandleRegistry {
    #[verifier::type_invariant]
    spec fn keys_finite(self) -> bool {
        slab_keys(self.slots).finite()
    }

    /// A registry with no handles.
    pub fn new() -> (r: HandleRegistry)
        ensures
            r@ == Set::<usize>::empty(),
    {
        HandleRegistry { slots: slab_new() }
    }

    /// The number of registered handles.
    pub fn len(&self) -> (n: usize)
        ensures
            n == self@.len(),
            self@.finite(),
    {
        proof {
            use_type_invariant(self);
        }
        slab_len(&self.slots)
    }

    /// Whether a key holds a handle.
    pub fn contains(&self, key: usize) -> (present: bool)
        ensures
            present == self@.contains(key),
    {
        slab_contains(&self.slots, key)
    }

    /// Registers a handle under a fresh key and returns the key.
    pub fn register(&mut self, handle: AbortHandle) -> (key: usize)
        ensures
            !old(self)@.contains(key),
            final(self)@ == old(self)@.insert(key),
    {
        proof {
            use_type_invariant(&*self);
        }
        let mut slots = slab_new();
        std::mem::swap(&mut slots, &mut self.slots);
        let key = slab_insert(&mut slots, handle);
        self.slots = slots;
        key
    }

    /// Forgets the handle under a key, if there is one; the task keeps
    /// running.
    pub fn forget(&mut self, key: usize)
        ensures
            final(self)@ == old(self)@.remove(key),
    {
        proof {
            use_type_invariant(&*self);
        }
        if slab_contains(&self.slots, key) {
            let mut slots = slab_new();
            std::mem::swap(&mut slots, &mut self.slots);
            slab_remove(&mut slots, key);
            self.slots = slots;
        } else {
            assert(old(self)@.remove(key) =~= old(self)@);
        }
    }

    /// Aborts every registered task and empties the registry; returns how
    /// many tasks were aborted.
    pub fn abort_all(&mut self) -> (aborted: usize)
        ensures
            final(self)@ == Set::<usize>::empty(),
            aborted == old(self)@.len(),
    {
        proof {
            use_type_invariant(&*self);
        }
        let mut slots = slab_new();
        std::mem::swap(&mut slots, &mut self.slots);
        let handles = slab_drain(&mut slots);
        self.slots = slots;
        let n = handles.len();
        let mut i: usize = 0;
        while i < n
            invariant
                n == handles@.len(),
                i <= n,
            decreases n - i,
        {
            abort_task(&handles[i]);
            i = i + 1;
        }
        n
    }
}

/// Law: a key handed out by `register` is fresh, forgetting it restores the
/// registry, and forgetting a key that holds nothing changes nothing.
pub proof fn lemma_register_then_forget(keys: Set<usize>, key: usize)
    ensures
        !keys.contains(key) ==> keys.insert(key).remove(key) == keys,
        !keys.contains(key) ==> keys.remove(key) == keys,
        keys.insert(key).contains(key),
{
    if !keys.contains(key) {
        assert(keys.insert(key).remove(key) =~= keys);
        assert(keys.remove(key) =~= keys);
    }
}

/* Forwarding a stream to its actor */

/// Where the forwarding of a stream stands.
#[derive(Debug, Clone, Copy, PartialEq, Eq)]
pub enum PumpPhase {
    /// Nothing was sent yet; the link to the actor is about to be checked.
    Starting,
    /// Waiting for the next item of the stream.
    Polling,
    /// An item arrived; the link is about to be checked.
    ItemReady,
    /// The item was handed to the link; its outcome is awaited.
    Sending,
    /// The stream ended; the link is about to be checked before `finished`.
    Finishing,
    /// The link is about to be checked before the stream is unregistered.
    Removing,
    /// Nothing more is sent.
    Done,
}

/// What the task forwarding a stream learned since its last step.
#[derive(Debug, Clone, Copy)]
pub enum PumpInput {
    /// Whether the actor's event channel is still alive.
    LinkChecked(bool),
    /// The stream gave an item.
    ItemArrived,
    /// The stream ended.
    StreamEnded,
    /// Whether handing the item to the channel succeeded.
    Sent(bool),
}

/// What the task forwarding a stream does next.
#[derive(Debug, Clone, Copy, PartialEq, Eq)]
pub enum PumpStep {
    /// Tell the actor that the stream started, then poll the stream.
    SendStarted,
    /// Poll the stream for its next item.
    AwaitItem,
    /// Check whether the actor's event channel is alive.
    CheckLink,
    /// Hand the item to the actor.
    SendItem,
    /// Tell the actor that the stream finished, then check the link.
    SendFinished,
    /// Ask the actor to unregister the stream with this key; then stop.
    SendRemove(usize),
    /// Stop forwarding.
    Stop,
}

/// One step of the forwarding protocol: the next phase and what to do.
pub open spec fn pump_transition(phase: PumpPhase, input: PumpInput, key: usize) -> (
    PumpPhase,
    PumpStep,
) {
    match (phase, input) {
        (PumpPhase::Starting, PumpInput::LinkChecked(true)) => (
            PumpPhase::Polling,
            PumpStep::SendStarted,
        ),
        (PumpPhase::Polling, PumpInput::ItemArrived) => (PumpPhase::ItemReady, PumpStep::CheckLink),
        (PumpPhase::Polling, PumpInput::StreamEnded) => (PumpPhase::Finishing, PumpStep::CheckLink),
        (PumpPhase::ItemReady, PumpInput::LinkChecked(true)) => (
            PumpPhase::Sending,
            PumpStep::SendItem,
        ),
        (PumpPhase::Sending, PumpInput::Sent(true)) => (PumpPhase::Polling, PumpStep::AwaitItem),
        (PumpPhase::Finishing, PumpInput::LinkChecked(true)) => (
            PumpPhase::Removing,
            PumpStep::SendFinished,
        ),
        (PumpPhase::Finishing, PumpInput::LinkChecked(false)) => (
            PumpPhase::Removing,
            PumpStep::CheckLink,
        ),
        (PumpPhase::Removing, PumpInput::LinkChecked(true)) => (
            PumpPhase::Done,
            PumpStep::SendRemove(key),
        ),
        _ => (PumpPhase::Done, PumpStep::Stop),
    }
}

/// The forwarding of one stream, registered under `key`, to its actor: tell
/// it that the stream started, hand it each item while its channel lives,
/// tell it that the stream finished, and ask it to unregister the stream.
pub struct StreamPump {
    key: usize,
    phase: PumpPhase,
}

impl StreamPump {
    /// A forwarding that has not started, for the stream registered under
    /// `key`.
    pub fn new(key: usize) -> (p: StreamPump)
        ensures
            p.key() == key,
            p.phase() == PumpPhase::Starting,
    {
        StreamPump { key, phase: PumpPhase::Starting }
    }

    /// The key the stream is registered under.
    pub closed spec fn key(&self) -> usize {
        self.key
    }

    /// Where the forwarding stands.
    pub closed spec fn phase(&self) -> PumpPhase {
        self.phase
    }

    /// Where the forwarding stands.
    pub fn current_phase(&self) -> (phase: PumpPhase)
        ensures
            phase == self.phase(),
    {
        self.phase
    }

    /// Takes what the task learned and decides its next step.
    pub fn step(&mut self, input: PumpInput) -> (next: PumpStep)
        ensures
            (final(self).phase(), next) == pump_transition(old(self).phase(), input, old(self).key()),
            final(self).key() == old(self).key(),
    {
        let (phase, next) = match (self.phase, input) {
            (PumpPhase::Starting, PumpInput::LinkChecked(true)) => (
                PumpPhase::Polling,
                PumpStep::SendStarted,
            ),
            (PumpPhase::Polling, PumpInput::ItemArrived) => (
                PumpPhase::ItemReady,
                PumpStep::CheckLink,
            ),
            (PumpPhase::Polling, PumpInput::StreamEnded) => (
                PumpPhase::Finishing,
                PumpStep::CheckLink,
            ),
            (PumpPhase::ItemReady, PumpInput::LinkChecked(true)) => (
                PumpPhase::Sending,
                PumpStep::SendItem,
            ),
            (PumpPhase::Sending, PumpInput::Sent(true)) => (
                PumpPhase::Polling,
                PumpStep::AwaitItem,
            ),
            (PumpPhase::Finishing, PumpInput::LinkChecked(true)) => (
                PumpPhase::Removing,
                PumpStep::SendFinished,
            ),
            (PumpPhase::Finishing, PumpInput::LinkChecked(false)) => (
                PumpPhase::Removing,
                PumpStep::CheckLink,
            ),
            (PumpPhase::Removing, PumpInput::LinkChecked(true)) => (
                PumpPhase::Done,
                PumpStep::SendRemove(self.key),
            ),
            _ => (PumpPhase::Done, PumpStep::Stop),
        };
        self.phase = phase;
        next
    }
}

/// Law: once forwarding is done it stays done and sends nothing; the request
/// to unregister carries the stream's own key and ends the forwarding; items
/// are handed over only after a live link was seen for them.
pub proof fn lemma_pump_protocol(phase: PumpPhase, input: PumpInput, key: usize)
    ensures
        phase == PumpPhase::Done ==> pump_transition(phase, input, key) == (
            PumpPhase::Done,
            PumpStep::Stop,
        ),
        forall|k: usize|
            pump_transition(phase, input, key).1 == PumpStep::SendRemove(k) ==> k == key
                && pump_transition(phase, input, key).0 == PumpPhase::Done,
        pump_transition(phase, input, key).1 == PumpStep::SendItem ==> phase
            == PumpPhase::ItemReady && input == PumpInput::LinkChecked(true),
        pump_transition(phase, input, key).1 == PumpStep::Stop ==> pump_transition(
            phase,
            input,
            key,
        ).0 == PumpPhase::Done,
{
}

/* Whole runs of the forwarding protocol */

/// The phase and the steps after a run of inputs, starting from `phase`.
pub open spec fn pump_run(phase: PumpPhase, inputs: Seq<PumpInput>, key: usize) -> (
    PumpPhase,
    Seq<PumpStep>,
)
    decreases inputs.len(),
{
    if inputs.len() == 0 {
        (phase, Seq::empty())
    } else {
        let (next, step) = pump_transition(phase, inputs[0], key);
        let (last, rest) = pump_run(next, inputs.drop_first(), key);
        (last, seq![step] + rest)
    }
}

/// True when a step hands something to the actor.
pub open spec fn is_delivery(step: PumpStep) -> bool {
    match step {
        PumpStep::SendStarted | PumpStep::SendItem | PumpStep::SendFinished
        | PumpStep::SendRemove(_) => true,
        _ => false,
    }
}

/// What a sequence of steps hands to the actor, in order.
pub open spec fn deliveries(steps: Seq<PumpStep>) -> Seq<PumpStep>
    decreases steps.len(),
{
    if steps.len() == 0 {
        Seq::empty()
    } else if is_delivery(steps[0]) {
        seq![steps[0]] + deliveries(steps.drop_first())
    } else {
        deliveries(steps.drop_first())
    }
}

/// `n` item deliveries.
pub open spec fn item_deliveries(n: nat) -> Seq<PumpStep> {
    Seq::new(n, |i: int| PumpStep::SendItem)
}

/// The deliveries of a forwarding that started or not, handed over `items`
/// items, told the actor that the stream finished or not, and asked it to
/// unregister the stream or not.
pub open spec fn delivery_shape(
    started: bool,
    items: nat,
    finished: bool,
    removed: bool,
    key: usize,
) -> Seq<PumpStep> {
    (if started {
        seq![PumpStep::SendStarted]
    } else {
        Seq::empty()
    }) + item_deliveries(items) + (if finished {
        seq![PumpStep::SendFinished]
    } else {
        Seq::empty()
    }) + (if removed {
        seq![PumpStep::SendRemove(key)]
    } else {
        Seq::empty()
    })
}

/// The shapes of delivery that each phase can have behind it.
pub open spec fn shape_fits_phase(
    phase: PumpPhase,
    started: bool,
    items: nat,
    finished: bool,
    removed: bool,
) -> bool {
    &&& (!started ==> items == 0 && !finished && !removed)
    &&& match phase {
        PumpPhase::Starting => !started,
        PumpPhase::Polling | PumpPhase::ItemReady | PumpPhase::Sending | PumpPhase::Finishing =>
            started && !finished && !removed,
        PumpPhase::Removing => started && !removed,
        PumpPhase::Done => true,
    }
}

/// The inputs of a forwarding in which every link check finds the actor and
/// every send succeeds, for a stream of `n` items.
pub open spec fn item_inputs(n: nat) -> Seq<PumpInput>
    decreases n,
{
    if n == 0 {
        Seq::empty()
    } else {
        seq![PumpInput::ItemArrived, PumpInput::LinkChecked(true), PumpInput::Sent(true)]
            + item_inputs((n - 1) as nat)
    }
}

/// The steps of that forwarding for the items.
pub open spec fn item_steps(n: nat) -> Seq<PumpStep>
    decreases n,
{
    if n == 0 {
        Seq::empty()
    } else {
        seq![PumpStep::CheckLink, PumpStep::SendItem, PumpStep::AwaitItem] + item_steps(
            (n - 1) as nat,
        )
    }
}

/// All inputs of a forwarding of `n` items in which nothing fails.
pub open spec fn healthy_inputs(n: nat) -> Seq<PumpInput> {
    seq![PumpInput::LinkChecked(true)] + item_inputs(n) + seq![
        PumpInput::StreamEnded,
        PumpInput::LinkChecked(true),
        PumpInput::LinkChecked(true),
    ]
}

/// All steps of a forwarding of `n` items in which nothing fails.
pub open spec fn healthy_steps(n: nat, key: usize) -> Seq<PumpStep> {
    seq![PumpStep::SendStarted] + item_steps(n) + seq![
        PumpStep::CheckLink,
        PumpStep::SendFinished,
        PumpStep::SendRemove(key),
    ]
}

proof fn lemma_run_concat(phase: PumpPhase, a: Seq<PumpInput>, b: Seq<PumpInput>, key: usize)
    ensures
        pump_run(phase, a + b, key) == (
            pump_run(pump_run(phase, a, key).0, b, key).0,
            pump_run(phase, a, key).1 + pump_run(pump_run(phase, a, key).0, b, key).1,
        ),
    decreases a.len(),
{
    if a.len() == 0 {
        assert(a + b =~= b);
        assert(Seq::<PumpStep>::empty() + pump_run(phase, b, key).1 =~= pump_run(phase, b, key).1);
    } else {
        let (next, step) = pump_transition(phase, a[0], key);
        assert((a + b).drop_first() =~= a.drop_first() + b);
        assert((a + b)[0] == a[0]);
        lemma_run_concat(next, a.drop_first(), b, key);
        let r1 = pump_run(next, a.drop_first(), key);
        let r2 = pump_run(r1.0, b, key);
        assert(seq![step] + (r1.1 + r2.1) =~= (seq![step] + r1.1) + r2.1);
    }
}

proof fn lemma_item_run(n: nat, key: usize)
    ensures
        pump_run(PumpPhase::Polling, item_inputs(n), key) == (PumpPhase::Polling, item_steps(n)),
    decreases n,
{
    if n > 0 {
        let head = seq![PumpInput::ItemArrived, PumpInput::LinkChecked(true), PumpInput::Sent(true)];
        lemma_run_concat(PumpPhase::Polling, head, item_inputs((n - 1) as nat), key);
        lemma_item_run((n - 1) as nat, key);
        reveal_with_fuel(pump_run, 4);
        assert(head.drop_first().drop_first().drop_first() =~= Seq::<PumpInput>::empty());
        assert(pump_run(PumpPhase::Polling, head, key).1 =~= seq![
            PumpStep::CheckLink,
            PumpStep::SendItem,
            PumpStep::AwaitItem,
        ]);
    }
}

proof fn lemma_deliveries_concat(a: Seq<PumpStep>, b: Seq<PumpStep>)
    ensures
        deliveries(a + b) == deliveries(a) + deliveries(b),
    decreases a.len(),
{
    if a.len() == 0 {
        assert(a + b =~= b);
        assert(Seq::<PumpStep>::empty() + deliveries(b) =~= deliveries(b));
    } else {
        assert((a + b).drop_first() =~= a.drop_first() + b);
        assert((a + b)[0] == a[0]);
        lemma_deliveries_concat(a.drop_first(), b);
        assert(seq![a[0]] + (deliveries(a.drop_first()) + deliveries(b)) =~= (seq![a[0]]
            + deliveries(a.drop_first())) + deliveries(b));
    }
}

proof fn lemma_item_deliveries(n: nat)
    ensures
        deliveries(item_steps(n)) == item_deliveries(n),
    decreases n,
{
    if n > 0 {
        let head = seq![PumpStep::CheckLink, PumpStep::SendItem, PumpStep::AwaitItem];
        lemma_deliveries_concat(head, item_steps((n - 1) as nat));
        lemma_item_deliveries((n - 1) as nat);
        reveal_with_fuel(deliveries, 4);
        assert(head.drop_first().drop_first().drop_first() =~= Seq::<PumpStep>::empty());
        assert(deliveries(head) =~= seq![PumpStep::SendItem]);
        assert(seq![PumpStep::SendItem] + item_deliveries((n - 1) as nat) =~= item_deliveries(n));
    }
}

/// Law: a forwarding in which the actor stays reachable and every send
/// succeeds tells the actor that the stream started, hands it each item in
/// turn (after a link check, and before polling for the next one), tells it
/// that the stream finished and asks it to unregister the stream's own key;
/// that is, in order, started, the `n` items, finished, remove.
pub proof fn lemma_pump_healthy_run(n: nat, key: usize)
    ensures
        pump_run(PumpPhase::Starting, healthy_inputs(n), key) == (
            PumpPhase::Done,
            healthy_steps(n, key),
        ),
        deliveries(healthy_steps(n, key)) == seq![PumpStep::SendStarted] + item_deliveries(n)
            + seq![PumpStep::SendFinished, PumpStep::SendRemove(key)],
{
    let first = seq![PumpInput::LinkChecked(true)];
    let tail = seq![PumpInput::StreamEnded, PumpInput::LinkChecked(true), PumpInput::LinkChecked(true)];
    assert(healthy_inputs(n) =~= first + (item_inputs(n) + tail));
    lemma_run_concat(PumpPhase::Starting, first, item_inputs(n) + tail, key);
    reveal_with_fuel(pump_run, 4);
    assert(first.drop_first() =~= Seq::<PumpInput>::empty());
    assert(pump_run(PumpPhase::Starting, first, key) == (PumpPhase::Polling, seq![PumpStep::SendStarted]));
    lemma_run_concat(PumpPhase::Polling, item_inputs(n), tail, key);
    lemma_item_run(n, key);
    assert(tail.drop_first().drop_first().drop_first() =~= Seq::<PumpInput>::empty());
    assert(pump_run(PumpPhase::Polling, tail, key).1 =~= seq![
        PumpStep::CheckLink,
        PumpStep::SendFinished,
        PumpStep::SendRemove(key),
    ]);
    let last = seq![PumpStep::CheckLink, PumpStep::SendFinished, PumpStep::SendRemove(key)];
    assert(healthy_steps(n, key) =~= seq![PumpStep::SendStarted] + (item_steps(n) + last));
    lemma_deliveries_concat(seq![PumpStep::SendStarted], item_steps(n) + last);
    lemma_deliveries_concat(item_steps(n), last);
    lemma_item_deliveries(n);
    reveal_with_fuel(deliveries, 4);
    assert(seq![PumpStep::SendStarted].drop_first() =~= Seq::<PumpStep>::empty());
    assert(last.drop_first().drop_first().drop_first() =~= Seq::<PumpStep>::empty());
    assert(deliveries(seq![PumpStep::SendStarted]) =~= seq![PumpStep::SendStarted]);
    assert(deliveries(last) =~= seq![PumpStep::SendFinished, PumpStep::SendRemove(key)]);
    assert(deliveries(healthy_steps(n, key)) =~= seq![PumpStep::SendStarted] + item_deliveries(n)
        + seq![PumpStep::SendFinished, PumpStep::SendRemove(key)]);
}

proof fn lemma_done_run(inputs: Seq<PumpInput>, key: usize)
    ensures
        pump_run(PumpPhase::Done, inputs, key).0 == PumpPhase::Done,
        forall|i: int|
            0 <= i < inputs.len() ==> #[trigger] pump_run(PumpPhase::Done, inputs, key).1[i]
                == PumpStep::Stop,
        pump_run(PumpPhase::Done, inputs, key).1.len() == inputs.len(),
    decreases inputs.len(),
{
    if inputs.len() > 0 {
        lemma_done_run(inputs.drop_first(), key);
        let rest = pump_run(PumpPhase::Done, inputs.drop_first(), key).1;
        assert forall|i: int| 0 <= i < inputs.len() implies #[trigger] pump_run(
            PumpPhase::Done,
            inputs,
            key,
        ).1[i] == PumpStep::Stop by {
            if i > 0 {
                assert((seq![PumpStep::Stop] + rest)[i] == rest[i - 1]);
            }
        }
    }
}

/// Walks a run and gives the shape of what it delivered, from a phase and
/// shape that fit.
proof fn lemma_run_shape(
    phase: PumpPhase,
    inputs: Seq<PumpInput>,
    key: usize,
    started: bool,
    items: nat,
    finished: bool,
    removed: bool,
    lost: bool,
) -> (shape: (bool, nat, bool, bool))
    requires
        shape_fits_phase(phase, started, items, finished, removed),
    ensures
        shape_fits_phase(pump_run(phase, inputs, key).0, shape.0, shape.1, shape.2, shape.3),
        link_never_returns(inputs) && (lost ==> !inputs.contains(PumpInput::LinkChecked(true)))
            && (phase == PumpPhase::Removing ==> finished || lost) && (removed ==> finished)
            ==> (shape.3 ==> shape.2),
        delivery_shape(started, items, finished, removed, key) + deliveries(
            pump_run(phase, inputs, key).1,
        ) == delivery_shape(shape.0, shape.1, shape.2, shape.3, key),
        pump_run(phase, inputs, key).1.len() == inputs.len(),
    decreases inputs.len(),
{
    let before = delivery_shape(started, items, finished, removed, key);
    if inputs.len() == 0 {
        assert(before + Seq::<PumpStep>::empty() =~= before);
        (started, items, finished, removed)
    } else {
        let (next, step) = pump_transition(phase, inputs[0], key);
        let (s1, k1, f1, r1) = if step == PumpStep::SendStarted {
            (true, items, finished, removed)
        } else if step == PumpStep::SendItem {
            (started, items + 1, finished, removed)
        } else if step == PumpStep::SendFinished {
            (started, items, true, removed)
        } else if step == PumpStep::SendRemove(key) {
            (started, items, finished, true)
        } else {
            (started, items, finished, removed)
        };
        let after = delivery_shape(s1, k1, f1, r1, key);
        let d1 = if is_delivery(step) {
            seq![step]
        } else {
            Seq::<PumpStep>::empty()
        };
        assert(before + d1 =~= after) by {
            if step == PumpStep::SendItem {
                assert(item_deliveries(items).push(PumpStep::SendItem) =~= item_deliveries(
                    items + 1,
                ));
            }
        }
        let tail = inputs.drop_first();
        let lost1 = lost || inputs[0] == PumpInput::LinkChecked(false);
        if link_never_returns(inputs) && (lost ==> !inputs.contains(PumpInput::LinkChecked(true))) {
            assert(link_never_returns(tail)) by {
                assert forall|i: int, j: int|
                    0 <= i < j < tail.len() && #[trigger] tail[i] == PumpInput::LinkChecked(false)
                        implies #[trigger] tail[j] != PumpInput::LinkChecked(true) by {
                    assert(tail[i] == inputs[i + 1] && tail[j] == inputs[j + 1]);
                }
            }
            assert(lost1 ==> !tail.contains(PumpInput::LinkChecked(true))) by {
                if tail.contains(PumpInput::LinkChecked(true)) {
                    let j = choose|j: int|
                        0 <= j < tail.len() && tail[j] == PumpInput::LinkChecked(true);
                    assert(inputs[j + 1] == PumpInput::LinkChecked(true));
                    assert(inputs.contains(PumpInput::LinkChecked(true)));
                }
            }
            if step == PumpStep::SendRemove(key) {
                assert(inputs[0] == PumpInput::LinkChecked(true));
                assert(inputs.contains(PumpInput::LinkChecked(true)));
            }
        }
        let shape = lemma_run_shape(next, tail, key, s1, k1, f1, r1, lost1);
        let rest = pump_run(next, inputs.drop_first(), key).1;
        lemma_deliveries_concat(seq![step], rest);
        reveal_with_fuel(deliveries, 2);
        assert(seq![step].drop_first() =~= Seq::<PumpStep>::empty());
        assert(deliveries(seq![step]) =~= d1);
        assert(before + (d1 + deliveries(rest)) =~= (before + d1) + deliveries(rest));
        shape
    }
}

/// Law: whatever happens (the actor becomes unreachable, a send fails), a
/// forwarding hands the actor, in order: nothing at all, or `started`, then
/// some of the items, then possibly `finished`, then possibly the request to
/// unregister the stream's key, and nothing after that request. Once a step
/// says stop, every later step says stop, so a forwarding that finds the
/// actor gone at the start never polls the stream.
pub proof fn lemma_pump_any_run(inputs: Seq<PumpInput>, key: usize)
    ensures
        exists|started: bool, items: nat, finished: bool, removed: bool|
            (!started ==> items == 0 && !finished && !removed) && #[trigger] delivery_shape(
                started,
                items,
                finished,
                removed,
                key,
            ) == deliveries(pump_run(PumpPhase::Starting, inputs, key).1),
        forall|i: int, j: int|
            0 <= i < j < inputs.len() && #[trigger] pump_run(PumpPhase::Starting, inputs, key).1[i]
                == PumpStep::Stop ==> #[trigger] pump_run(PumpPhase::Starting, inputs, key).1[j]
                == PumpStep::Stop,
        inputs.len() > 0 && inputs[0] == PumpInput::LinkChecked(false) ==> forall|i: int|
            0 <= i < inputs.len() ==> #[trigger] pump_run(PumpPhase::Starting, inputs, key).1[i]
                == PumpStep::Stop,
{
    let shape = lemma_run_shape(PumpPhase::Starting, inputs, key, false, 0, false, false, false);
    assert(delivery_shape(false, 0, false, false, key) =~= Seq::<PumpStep>::empty());
    assert(Seq::<PumpStep>::empty() + deliveries(pump_run(PumpPhase::Starting, inputs, key).1)
        =~= deliveries(pump_run(PumpPhase::Starting, inputs, key).1));
    assert(delivery_shape(shape.0, shape.1, shape.2, shape.3, key) == deliveries(
        pump_run(PumpPhase::Starting, inputs, key).1,
    ));
    lemma_stop_is_final(PumpPhase::Starting, inputs, key);
    if inputs.len() > 0 && inputs[0] == PumpInput::LinkChecked(false) {
        lemma_done_run(inputs.drop_first(), key);
        let rest = pump_run(PumpPhase::Done, inputs.drop_first(), key).1;
        assert forall|i: int| 0 <= i < inputs.len() implies #[trigger] pump_run(
            PumpPhase::Starting,
            inputs,
            key,
        ).1[i] == PumpStep::Stop by {
            if i > 0 {
                assert((seq![PumpStep::Stop] + rest)[i] == rest[i - 1]);
            }
        }
    }
}

proof fn lemma_stop_is_final(phase: PumpPhase, inputs: Seq<PumpInput>, key: usize)
    ensures
        pump_run(phase, inputs, key).1.len() == inputs.len(),
        forall|i: int, j: int|
            0 <= i < j < inputs.len() && #[trigger] pump_run(phase, inputs, key).1[i]
                == PumpStep::Stop ==> #[trigger] pump_run(phase, inputs, key).1[j]
                == PumpStep::Stop,
    decreases inputs.len(),
{
    if inputs.len() > 0 {
        let (next, step) = pump_transition(phase, inputs[0], key);
        lemma_stop_is_final(next, inputs.drop_first(), key);
        lemma_done_run(inputs.drop_first(), key);
        let rest = pump_run(next, inputs.drop_first(), key).1;
        assert(pump_run(phase, inputs, key).1 == seq![step] + rest);
        assert forall|i: int, j: int|
            0 <= i < j < inputs.len() && #[trigger] pump_run(phase, inputs, key).1[i]
                == PumpStep::Stop implies #[trigger] pump_run(phase, inputs, key).1[j]
                == PumpStep::Stop by {
            assert((seq![step] + rest)[j] == rest[j - 1]);
            if i == 0 {
                assert(step == PumpStep::Stop);
                assert(next == PumpPhase::Done);
            } else {
                assert((seq![step] + rest)[i] == rest[i - 1]);
            }
        }
    }
}

/// True when no successful link check follows a failed one: once the
/// actor's channel is found gone, it stays gone.
pub open spec fn link_never_returns(inputs: Seq<PumpInput>) -> bool {
    forall|i: int, j: int|
        0 <= i < j < inputs.len() && #[trigger] inputs[i] == PumpInput::LinkChecked(false)
            ==> #[trigger] inputs[j] != PumpInput::LinkChecked(true)
}

/// Law: when a lost link never comes back (as with a channel that is gone
/// for good), what a forwarding hands the actor is a prefix of: started,
/// the items, finished, the request to unregister the stream's key. It is
/// nothing at all, or started followed by some items, then possibly
/// finished, and the request to unregister comes only after finished.
pub proof fn lemma_pump_prefix_run(inputs: Seq<PumpInput>, key: usize)
    requires
        link_never_returns(inputs),
    ensures
        exists|started: bool, items: nat, finished: bool, removed: bool|
            (!started ==> items == 0 && !finished && !removed) && (removed ==> finished)
                && #[trigger] delivery_shape(started, items, finished, removed, key) == deliveries(
                pump_run(PumpPhase::Starting, inputs, key).1,
            ),
{
    let shape = lemma_run_shape(PumpPhase::Starting, inputs, key, false, 0, false, false, false);
    assert(delivery_shape(false, 0, false, false, key) =~= Seq::<PumpStep>::empty());
    assert(Seq::<PumpStep>::empty() + deliveries(pump_run(PumpPhase::Starting, inputs, key).1)
        =~= deliveries(pump_run(PumpPhase::Starting, inputs, key).1));
    assert(delivery_shape(shape.0, shape.1, shape.2, shape.3, key) == deliveries(
        pump_run(PumpPhase::Starting, inputs, key).1,
    ));
}

/// How many items a run of inputs brought from the stream.
pub open spec fn count_arrivals(inputs: Seq<PumpInput>) -> nat
    decreases inputs.len(),
{
    if inputs.len() == 0 {
        0
    } else {
        (if inputs[0] == PumpInput::ItemArrived {
            1nat
        } else {
            0nat
        }) + count_arrivals(inputs.drop_first())
    }
}

/// How many items a run of steps handed to the actor.
pub open spec fn count_sent_items(steps: Seq<PumpStep>) -> nat
    decreases steps.len(),
{
    if steps.len() == 0 {
        0
    } else {
        (if steps[0] == PumpStep::SendItem {
            1nat
        } else {
            0nat
        }) + count_sent_items(steps.drop_first())
    }
}

/// An item that arrived and is not handed over yet.
pub open spec fn pending_item(phase: PumpPhase) -> nat {
    if phase == PumpPhase::ItemReady {
        1
    } else {
        0
    }
}

proof fn lemma_run_counts(phase: PumpPhase, inputs: Seq<PumpInput>, key: usize)
    ensures
        count_sent_items(pump_run(phase, inputs, key).1) <= count_arrivals(inputs) + pending_item(
            phase,
        ),
        pump_run(phase, inputs, key).1.contains(PumpStep::SendFinished) ==> phase
            == PumpPhase::Finishing || inputs.contains(PumpInput::StreamEnded),
    decreases inputs.len(),
{
    if inputs.len() > 0 {
        let (next, step) = pump_transition(phase, inputs[0], key);
        let tail = inputs.drop_first();
        let rest = pump_run(next, tail, key).1;
        lemma_run_counts(next, tail, key);
        let steps = pump_run(phase, inputs, key).1;
        assert(steps == seq![step] + rest);
        assert(steps[0] == step);
        assert(steps.drop_first() =~= rest);
        if steps.contains(PumpStep::SendFinished) {
            let i = choose|i: int| 0 <= i < steps.len() && steps[i] == PumpStep::SendFinished;
            if i > 0 {
                assert(rest[i - 1] == PumpStep::SendFinished);
                assert(rest.contains(PumpStep::SendFinished));
                if next == PumpPhase::Finishing {
                    assert(inputs[0] == PumpInput::StreamEnded);
                    assert(inputs.contains(PumpInput::StreamEnded));
                } else if !(phase == PumpPhase::Finishing) {
                    let j = choose|j: int| 0 <= j < tail.len() && tail[j] == PumpInput::StreamEnded;
                    assert(inputs[j + 1] == PumpInput::StreamEnded);
                    assert(inputs.contains(PumpInput::StreamEnded));
                }
            }
        }
    }
}

/// Law: a forwarding never hands the actor more items than the stream gave,
/// and tells it that the stream finished only after the stream ended.
pub proof fn lemma_pump_counts(inputs: Seq<PumpInput>, key: usize)
    ensures
        count_sent_items(pump_run(PumpPhase::Starting, inputs, key).1) <= count_arrivals(inputs),
        pump_run(PumpPhase::Starting, inputs, key).1.contains(PumpStep::SendFinished)
            ==> inputs.contains(PumpInput::StreamEnded),
{
    lemma_run_counts(PumpPhase::Starting, inputs, key);
}

} // verus!
