//! The dispatcher: a queue of systems and the steps by which workers take
//! systems off it, run them against the world, and put them back; and the
//! protocol by which all workers are parked while the world is edited from
//! outside.
//!
//! The dispatcher decides; the threads are the caller's. A worker thread
//! calls [`Dispatcher::step`] in a loop and does what the returned action
//! says: it sleeps, parks, runs a system, or leaves the loop.

use crossbeam::queue::ArrayQueue;
use crossbeam::utils::Backoff;
use std::time::Duration;
use vstd::prelude::*;

use crate::cell::{is_exclusive, AtomicRefCell, AtomicRefMut};
use crate::seqs::lemma_push_contains;
use crate::storage::component::ComponentStorageAllocator;
use crate::storage::resource::ResourceStorageAllocator;
use crate::system::executor::{acquire_error, SystemExecutor};
use crate::system::{
    column_borrows, columns_kept, columns_with_borrows, component_requests, granted_all,
    resource_requests, slot_borrows, slots_kept, slots_with_borrows, unwritten_kept,
    ComponentGuard, ResourceGuard, RetrievalError, System,
};
use crate::world::model::WorldView;
use crate::world::World;

verus! {

/// The place of a system in the dispatcher's table of systems.
pub type SystemId = usize;

/// The largest capacity that a system queue can be made with.
pub const MAX_QUEUE_CAPACITY: usize = usize::MAX / 32;

/// crossbeam's bounded queue, `crossbeam::queue::ArrayQueue`.
#[verifier::external_type_specification]
#[verifier::external_body]
#[verifier::reject_recursive_types(T)]
pub struct ExArrayQueue<T>(ArrayQueue<T>);

/// crossbeam's `crossbeam::utils::Backoff`.
#[verifier::external_type_specification]
#[verifier::external_body]
pub struct ExBackoff(Backoff);

/// The items that wait in a queue, the oldest first.
pub uninterp spec fn queue_items(queue: ArrayQueue<SystemId>) -> Seq<SystemId>;

/// The capacity that a queue was made with.
pub uninterp spec fn queue_capacity(queue: ArrayQueue<SystemId>) -> nat;

/// Calls `ArrayQueue::new`, which makes an empty queue of the given
/// capacity. It panics on a capacity of zero and on one too large for the
/// buffer; both are left out.
#[verifier::external_body]
fn queue_new(capacity: usize) -> (queue: ArrayQueue<SystemId>)
    requires
        0 < capacity <= MAX_QUEUE_CAPACITY,
    ensures
        queue_items(queue) == Seq::<SystemId>::empty(),
        queue_capacity(queue) == capacity,
{
    ArrayQueue::new(capacity)
}

/// Calls `ArrayQueue::push_mut`, which appends the item unless the queue is
/// full: then the queue stays as it is and the item comes back.
#[verifier::external_body]
fn queue_push(queue: &mut ArrayQueue<SystemId>, value: SystemId) -> (res: Result<(), SystemId>)
    ensures
        queue_capacity(*final(queue)) == queue_capacity(*old(queue)),
        queue_items(*old(queue)).len() < queue_capacity(*old(queue)) ==> res.is_ok() && queue_items(
            *final(queue),
        ) == queue_items(*old(queue)).push(value),
        queue_items(*old(queue)).len() >= queue_capacity(*old(queue)) ==> (res matches Err(back)
            && back == value) && queue_items(*final(queue)) == queue_items(*old(queue)),
{
    queue.push_mut(value)
}

/// Calls `ArrayQueue::pop_mut`, which takes the oldest item off, if there
/// is one.
#[verifier::external_body]
fn queue_pop(queue: &mut ArrayQueue<SystemId>) -> (res: Option<SystemId>)
    ensures
        queue_capacity(*final(queue)) == queue_capacity(*old(queue)),
        queue_items(*old(queue)).len() == 0 ==> res.is_none() && queue_items(*final(queue))
            == queue_items(*old(queue)),
        queue_items(*old(queue)).len() > 0 ==> res == Some(queue_items(*old(queue))[0])
            && queue_items(*final(queue)) == queue_items(*old(queue)).drop_first(),
{
    queue.pop_mut()
}

/// Calls `ArrayQueue::capacity`, which returns the capacity that the queue
/// was made with.
#[verifier::external_body]
fn queue_capacity_of(queue: &ArrayQueue<SystemId>) -> (capacity: usize)
    ensures
        capacity == queue_capacity(*queue),
{
    queue.capacity()
}

/// Calls `ArrayQueue::len`, which returns the number of items in the queue.
#[verifier::external_body]
fn queue_len(queue: &ArrayQueue<SystemId>) -> (len: usize)
    ensures
        len == queue_items(*queue).len(),
{
    queue.len()
}

/// `Backoff::new` makes a backoff; nothing is claimed of it.
pub assume_specification[ Backoff::new ]() -> Backoff;

/// `Backoff::reset` starts the backoff over; nothing is claimed of it.
pub assume_specification[ Backoff::reset ](backoff: &Backoff);

/// `Backoff::snooze` waits a little; nothing is claimed of it.
pub assume_specification[ Backoff::snooze ](backoff: &Backoff);

/// `Backoff::is_completed` says whether blocking is advised by now; nothing
/// is claimed of the answer.
pub assume_specification[ Backoff::is_completed ](backoff: &Backoff) -> bool;

/// `num_cpus::get` returns the number of logical cores that the process
/// can use, which is at least one.
pub assume_specification[ num_cpus::get ]() -> (count: usize)
    ensures
        count >= 1,
;

/// What a system queue shows of itself.
pub struct QueueView {
    /// The system in the one-slot cache, if there is one.
    pub cache: Option<SystemId>,
    /// The systems in the ring, the oldest first.
    pub ring: Seq<SystemId>,
    /// The capacity of the ring.
    pub capacity: nat,
}

impl QueueView {
    /// The number of systems that wait.
    pub open spec fn len(self) -> nat {
        self.ring.len() + if self.cache.is_some() {
            1nat
        } else {
            0nat
        }
    }

    /// Whether `system` waits in the queue.
    pub open spec fn contains(self, system: SystemId) -> bool {
        self.cache == Some(system) || self.ring.contains(system)
    }

    /// The queue after a push: into the cache where it is empty, else into
    /// the ring where it has room, else nowhere.
    pub open spec fn pushed(self, system: SystemId) -> Self {
        if self.cache.is_none() {
            QueueView { cache: Some(system), ..self }
        } else {
            self.pushed_no_cache(system)
        }
    }

    /// The queue after a push that goes past the cache: into the ring where
    /// it has room.
    pub open spec fn pushed_no_cache(self, system: SystemId) -> Self {
        if self.ring.len() < self.capacity {
            QueueView { ring: self.ring.push(system), ..self }
        } else {
            self
        }
    }

    /// Whether a push finds room.
    pub open spec fn has_room(self) -> bool {
        self.cache.is_none() || self.ring.len() < self.capacity
    }

    /// The system that a pop takes: the cached one, else the oldest of the
    /// ring.
    pub open spec fn front(self) -> Option<SystemId> {
        if self.cache.is_some() {
            self.cache
        } else if self.ring.len() > 0 {
            Some(self.ring[0])
        } else {
            None
        }
    }

    /// The queue after a pop.
    pub open spec fn popped(self) -> Self {
        if self.cache.is_some() {
            QueueView { cache: None, ..self }
        } else if self.ring.len() > 0 {
            QueueView { ring: self.ring.drop_first(), ..self }
        } else {
            self
        }
    }
}

/// The queue of the systems that wait to be run: a bounded ring, and
/// before it a cache of one slot that spares the ring while few systems
/// circulate.
pub struct SystemQueue {
    cache: AtomicRefCell<Option<SystemId>>,
    queue: ArrayQueue<SystemId>,
}

impl View for SystemQueue {
    type V = QueueView;

    closed spec fn view(&self) -> QueueView {
        QueueView {
            cache: self.cache.value(),
            ring: queue_items(self.queue),
            capacity: queue_capacity(self.queue),
        }
    }
}

impl SystemQueue {
    /// The queue's invariant: the ring holds no more than its capacity, and
    /// the cell of the cache is free of borrows.
    pub closed spec fn wf(&self) -> bool {
        &&& self.cache.state() == 0
        &&& queue_items(self.queue).len() <= queue_capacity(self.queue)
        &&& queue_capacity(self.queue) > 0
    }

    /// What the invariant says of the view.
    pub proof fn lemma_wf(&self)
        requires
            self.wf(),
        ensures
            self@.ring.len() <= self@.capacity,
            self@.capacity > 0,
    {
    }

    /// An empty queue whose ring has room for `capacity` systems.
    pub fn new(capacity: usize) -> (queue: Self)
        requires
            0 < capacity <= MAX_QUEUE_CAPACITY,
        ensures
            queue.wf(),
            queue@ == (QueueView { cache: None, ring: Seq::empty(), capacity: capacity as nat }),
    {
        Self { cache: AtomicRefCell::new(None), queue: queue_new(capacity) }
    }

    /// Puts `executor` into the cache where the cache is empty, else into
    /// the ring; where the ring is full too, `executor` comes back.
    pub fn push(&mut self, executor: SystemId) -> (res: Result<(), SystemId>)
        requires
            old(self).wf(),
        ensures
            final(self).wf(),
            final(self)@ == old(self)@.pushed(executor),
            old(self)@.has_room() ==> res.is_ok(),
            !old(self)@.has_room() ==> (res matches Err(back) && back == executor),
    {
        match self.cache.try_borrow_mut() {
            Some(guard) => {
                let cached = self.cache.write(&guard);
                if cached.is_none() {
                    *cached = Some(executor);
                    self.cache.release_mut(guard);
                    return Ok(());
                }
                self.cache.release_mut(guard);
            },
            None => {},
        }
        queue_push(&mut self.queue, executor)
    }

    /// Puts `executor` into the ring; where the ring is full, `executor`
    /// comes back.
    pub fn push_no_cache(&mut self, executor: SystemId) -> (res: Result<(), SystemId>)
        requires
            old(self).wf(),
        ensures
            final(self).wf(),
            final(self)@ == old(self)@.pushed_no_cache(executor),
            old(self)@.ring.len() < old(self)@.capacity ==> res.is_ok(),
            old(self)@.ring.len() >= old(self)@.capacity ==> (res matches Err(back) && back
                == executor),
    {
        queue_push(&mut self.queue, executor)
    }

    /// The number of systems in the ring.
    pub fn ring_len(&self) -> (len: usize)
        requires
            self.wf(),
        ensures
            len == self@.ring.len(),
    {
        queue_len(&self.queue)
    }

    /// The system in the cache, if there is one.
    pub fn cached(&self) -> (cached: Option<SystemId>)
        ensures
            cached == self@.cache,
    {
        *self.cache.read_unguarded()
    }

    /// The capacity of the ring.
    pub fn capacity(&self) -> (capacity: usize)
        requires
            self.wf(),
        ensures
            capacity == self@.capacity,
    {
        queue_capacity_of(&self.queue)
    }

    /// Takes the cached system, or else the oldest system of the ring.
    pub fn pop(&mut self) -> (res: Option<SystemId>)
        requires
            old(self).wf(),
        ensures
            final(self).wf(),
            final(self)@ == old(self)@.popped(),
            res == old(self)@.front(),
    {
        match self.cache.try_borrow_mut() {
            Some(guard) => {
                let cached = self.cache.write(&guard);
                if cached.is_some() {
                    let taken = cached.take();
                    self.cache.release_mut(guard);
                    return taken;
                }
                self.cache.release_mut(guard);
            },
            None => {},
        }
        queue_pop(&mut self.queue)
    }
}

/// What all workers are to do.
#[derive(Clone, Copy, PartialEq, Eq, Structural, Debug)]
pub enum Status {
    /// Run systems.
    Running,
    /// Park, so that the world can be edited from outside.
    Parked,
    /// Leave the loop.
    Shutdown,
}

/// Where a worker stands in its loop.
#[derive(Clone, Copy, PartialEq, Eq, Structural, Debug)]
pub enum WorkerState {
    /// Between two systems.
    Idle,
    /// It took a system off the queue and has yet to run it.
    Holding(SystemId),
    /// It has parked.
    Parked,
    /// It has left the loop.
    Exited,
}

impl WorkerState {
    /// The system that a worker in this state holds; of a worker that holds
    /// none, the first.
    pub open spec fn held(self) -> SystemId {
        match self {
            WorkerState::Holding(system) => system,
            _ => 0,
        }
    }
}

/// What a worker thread is to do next.
#[derive(Debug)]
pub enum WorkerAction {
    /// Sleep for `sleep`, if it is given; then call [`Dispatcher::run`].
    Run { system: SystemId, sleep: Option<Duration> },
    /// No system waits. Sleep a millisecond if `rest` says so; then step
    /// again.
    Idle { rest: bool },
    /// Park the thread; step again once it is unparked.
    Park,
    /// Leave the loop.
    Exit,
}

/// How many of the workers have parked.
pub open spec fn count_parked(workers: Seq<WorkerState>) -> nat
    decreases workers.len(),
{
    if workers.len() == 0 {
        0
    } else {
        count_parked(workers.drop_last()) + if workers.last() is Parked {
            1nat
        } else {
            0nat
        }
    }
}

/// How many of the workers hold a system.
pub open spec fn count_holding(workers: Seq<WorkerState>) -> nat
    decreases workers.len(),
{
    if workers.len() == 0 {
        0
    } else {
        count_holding(workers.drop_last()) + if workers.last() is Holding {
            1nat
        } else {
            0nat
        }
    }
}

/// The two counts after one worker changed its state.
pub proof fn lemma_count_update(workers: Seq<WorkerState>, i: int, state: WorkerState)
    requires
        0 <= i < workers.len(),
    ensures
        count_parked(workers.update(i, state)) + (if workers[i] is Parked {
            1nat
        } else {
            0nat
        }) == count_parked(workers) + (if state is Parked {
            1nat
        } else {
            0nat
        }),
        count_holding(workers.update(i, state)) + (if workers[i] is Holding {
            1nat
        } else {
            0nat
        }) == count_holding(workers) + (if state is Holding {
            1nat
        } else {
            0nat
        }),
    decreases workers.len(),
{
    let changed = workers.update(i, state);
    if i == workers.len() - 1 {
        assert(changed.drop_last() == workers.drop_last());
    } else {
        assert(changed.drop_last() == workers.drop_last().update(i, state));
        lemma_count_update(workers.drop_last(), i, state);
    }
}

/// Neither count exceeds the number of workers, nor do both together.
pub proof fn lemma_count_bounds(workers: Seq<WorkerState>)
    ensures
        count_parked(workers) + count_holding(workers) <= workers.len(),
    decreases workers.len(),
{
    if workers.len() > 0 {
        lemma_count_bounds(workers.drop_last());
    }
}

/// Where as many workers have parked as there are, every worker has
/// parked.
pub proof fn lemma_all_parked(workers: Seq<WorkerState>)
    requires
        count_parked(workers) == workers.len(),
    ensures
        forall|i: int| 0 <= i < workers.len() ==> workers[i] is Parked,
        count_holding(workers) == 0,
    decreases workers.len(),
{
    if workers.len() > 0 {
        lemma_count_bounds(workers.drop_last());
        lemma_all_parked(workers.drop_last());
        assert forall|i: int| 0 <= i < workers.len() implies workers[i] is Parked by {
            if i < workers.len() - 1 {
                assert(workers.drop_last()[i] == workers[i]);
            }
        }
    }
}

/// What a dispatcher shows of itself.
pub struct DispatcherView<R, C> {
    /// What all workers are to do.
    pub status: Status,
    /// The counter of the workers that have parked.
    pub parked: nat,
    /// The workers that were spawned, each with its state.
    pub workers: Seq<WorkerState>,
    /// The number of workers that `dispatch` spawns up to.
    pub thread_count: nat,
    /// The world.
    pub world: WorldView<R, C>,
    /// The borrow counter of the cell that holds the world.
    pub world_borrow: usize,
    /// The systems that wait.
    pub queue: QueueView,
    /// The number of systems that the dispatcher owns.
    pub systems: nat,
    /// The time that a worker sleeps before it runs a system.
    pub sleep_time: Option<Duration>,
}

impl<R, C> DispatcherView<R, C> {
    /// The invariant of a dispatcher.
    pub open spec fn wf(self) -> bool {
        &&& self.world.wf()
        &&& self.parked == count_parked(self.workers)
        &&& self.queue.ring.len() <= self.queue.capacity
        &&& self.queue.capacity > 0
        &&& self.systems == self.queue.len() + count_holding(self.workers)
        &&& self.systems <= self.queue.capacity + 1
        &&& forall|system: SystemId| #[trigger] self.queue.contains(system) ==> system < self.systems
        &&& forall|i: int|
            0 <= i < self.workers.len() ==> (#[trigger] self.workers[i] matches WorkerState::Holding(
                system,
            ) ==> system < self.systems)
        &&& self.world_borrow == 0 || is_exclusive(self.world_borrow)
        &&& is_exclusive(self.world_borrow) ==> self.status is Parked && self.parked
            == self.workers.len()
    }

    /// The dispatcher once the worker at `worker` is back from parking, if
    /// it had parked.
    pub open spec fn unparked(self, worker: int) -> Self {
        if self.workers[worker] is Parked {
            DispatcherView {
                workers: self.workers.update(worker, WorkerState::Idle),
                parked: (self.parked - 1) as nat,
                ..self
            }
        } else {
            self
        }
    }

    /// The dispatcher after one turn of the loop of the worker at
    /// `worker`. A worker that holds a system, or has left, stays as it is.
    /// Any other worker goes by the status: while systems run, it takes the
    /// next system off the queue, if one waits; while the workers are to
    /// park, it parks; on shutdown, it leaves.
    pub open spec fn stepped(self, worker: int) -> Self {
        let woken = self.unparked(worker);
        match woken.workers[worker] {
            WorkerState::Exited => self,
            WorkerState::Holding(_) => self,
            _ => match woken.status {
                Status::Running => match woken.queue.front() {
                    Some(system) => DispatcherView {
                        workers: woken.workers.update(worker, WorkerState::Holding(system)),
                        queue: woken.queue.popped(),
                        ..woken
                    },
                    None => woken,
                },
                Status::Parked => DispatcherView {
                    workers: woken.workers.update(worker, WorkerState::Parked),
                    parked: woken.parked + 1,
                    ..woken
                },
                Status::Shutdown => DispatcherView {
                    workers: woken.workers.update(worker, WorkerState::Exited),
                    ..woken
                },
            },
        }
    }

    /// Whether `action` is what the worker at `worker` is told after its
    /// turn. Whether an idle worker is to sleep is left to its backoff.
    pub open spec fn tells(self, worker: int, action: WorkerAction) -> bool {
        match self.unparked(worker).workers[worker] {
            WorkerState::Exited => action is Exit,
            WorkerState::Holding(system) => action == (WorkerAction::Run {
                system,
                sleep: self.sleep_time,
            }),
            _ => match self.status {
                Status::Running => match self.queue.front() {
                    Some(system) => action == (WorkerAction::Run { system, sleep: self.sleep_time }),
                    None => action is Idle,
                },
                Status::Parked => action is Park,
                Status::Shutdown => action is Exit,
            },
        }
    }

    /// Whether every worker has parked.
    pub open spec fn all_parked(self) -> bool {
        forall|i: int| 0 <= i < self.workers.len() ==> self.workers[i] is Parked
    }

    /// While the world is lent out, no worker gets anywhere: a turn of its
    /// loop leaves the dispatcher as it is and tells the worker to park
    /// again.
    pub proof fn lemma_step_while_lent(self, worker: int, action: WorkerAction)
        requires
            self.wf(),
            is_exclusive(self.world_borrow),
            0 <= worker < self.workers.len(),
            self.tells(worker, action),
        ensures
            self.stepped(worker) == self,
            action is Park,
    {
        lemma_all_parked(self.workers);
        let woken = self.unparked(worker);
        assert(woken.workers.update(worker, WorkerState::Parked) =~= self.workers);
    }

    /// While no worker holds a system, the dispatcher can take one more
    /// system exactly when its queue has room.
    pub proof fn lemma_room_when_none_held(self)
        requires
            self.wf(),
            count_holding(self.workers) == 0,
        ensures
            self.systems <= self.queue.capacity <==> self.queue.has_room(),
    {
    }

    /// While the world is lent out, every worker is parked.
    pub proof fn lemma_parked_while_lent(self)
        requires
            self.wf(),
            is_exclusive(self.world_borrow),
        ensures
            self.all_parked(),
            self.status is Parked,
    {
        lemma_all_parked(self.workers);
    }
}

/// The record of one worker.
pub struct DispatchThread {
    backoff: Backoff,
    state: WorkerState,
}

impl DispatchThread {
    /// The record of a worker that is about to enter its loop.
    fn spawn() -> (thread: Self)
        ensures
            thread.state == WorkerState::Idle,
    {
        Self { backoff: Backoff::new(), state: WorkerState::Idle }
    }
}

/// What the workers share.
pub struct ThreadShared<S, R, C> {
    status: Status,
    parked: usize,
    world: AtomicRefCell<World<R, C>>,
    queue: SystemQueue,
    systems: Vec<SystemExecutor<S>>,
    sleep_time: Option<Duration>,
}

/// The token of the exclusive borrow of a dispatcher's world. While it is
/// out, every worker is parked.
#[must_use]
pub struct WorldHandle {
    guard: AtomicRefMut,
}

/// The answer to a request for the world.
pub enum WorldRequest {
    /// Every worker has parked: the world is lent out.
    Granted(WorldHandle),
    /// Not every worker has parked yet. Sleep a millisecond if `sleep` says
    /// so; then ask again.
    Wait { sleep: bool },
}

/// The owner of the world, the systems and the records of the workers.
pub struct Dispatcher<S, R, C> {
    threads: Vec<DispatchThread>,
    thread_count: usize,
    shared: ThreadShared<S, R, C>,
}

impl<S, R, C> View for Dispatcher<S, R, C> {
    type V = DispatcherView<R, C>;

    closed spec fn view(&self) -> DispatcherView<R, C> {
        DispatcherView {
            status: self.shared.status,
            parked: self.shared.parked as nat,
            workers: self.threads@.map_values(|thread: DispatchThread| thread.state),
            thread_count: self.thread_count as nat,
            world: self.shared.world.value()@,
            world_borrow: self.shared.world.state(),
            queue: self.shared.queue@,
            systems: self.shared.systems@.len(),
            sleep_time: self.shared.sleep_time,
        }
    }
}

impl<S, R, C> Dispatcher<S, R, C> {
    /// The dispatcher's invariant: that of its view, and that of its queue.
    pub closed spec fn wf(&self) -> bool {
        &&& self@.wf()
        &&& self.shared.queue.wf()
    }

    /// What the invariant says of the view.
    pub proof fn lemma_wf(&self)
        requires
            self.wf(),
        ensures
            self@.wf(),
    {
    }

    /// The systems that the dispatcher owns.
    pub closed spec fn systems(&self) -> Seq<SystemExecutor<S>> {
        self.shared.systems@
    }

    /// The view of a dispatcher that was just made.
    pub open spec fn fresh(
        world: WorldView<R, C>,
        capacity: nat,
        thread_count: nat,
        sleep_time: Option<Duration>,
    ) -> DispatcherView<R, C> {
        DispatcherView {
            status: Status::Running,
            parked: 0,
            workers: Seq::empty(),
            thread_count,
            world,
            world_borrow: 0,
            queue: QueueView { cache: None, ring: Seq::empty(), capacity },
            systems: 0,
            sleep_time,
        }
    }

    /// A dispatcher over `world` whose ring has room for `capacity`
    /// systems. Where no number of workers is given, it is the number of
    /// logical cores.
    fn new_priv(
        world: World<R, C>,
        capacity: usize,
        thread_count: Option<usize>,
        sleep_time: Option<Duration>,
    ) -> (dispatcher: Self)
        requires
            world@.wf(),
            0 < capacity <= MAX_QUEUE_CAPACITY,
        ensures
            dispatcher.wf(),
            dispatcher.systems() == Seq::<SystemExecutor<S>>::empty(),
            dispatcher@ == Self::fresh(
                world@,
                capacity as nat,
                dispatcher@.thread_count,
                sleep_time,
            ),
            match thread_count {
                Some(count) => dispatcher@.thread_count == count,
                None => dispatcher@.thread_count >= 1,
            },
    {
        let count = match thread_count {
            Some(count) => count,
            None => num_cpus::get(),
        };
        let shared = ThreadShared {
            status: Status::Running,
            parked: 0,
            world: AtomicRefCell::new(world),
            queue: SystemQueue::new(capacity),
            systems: Vec::new(),
            sleep_time,
        };
        let dispatcher = Self { threads: Vec::with_capacity(count), thread_count: count, shared };
        proof {
            assert(dispatcher@.workers =~= Seq::empty());
            assert(dispatcher@.queue.ring =~= Seq::empty());
        }
        dispatcher
    }

    /// A dispatcher over `world` with as many workers as there are logical
    /// cores.
    pub fn new(world: World<R, C>, capacity: usize) -> (dispatcher: Self)
        requires
            world@.wf(),
            0 < capacity <= MAX_QUEUE_CAPACITY,
        ensures
            dispatcher.wf(),
            dispatcher.systems() == Seq::<SystemExecutor<S>>::empty(),
            dispatcher@ == Self::fresh(world@, capacity as nat, dispatcher@.thread_count, None),
            dispatcher@.thread_count >= 1,
    {
        Self::new_priv(world, capacity, None, None)
    }

    /// A dispatcher over `world` with `thread_count` workers.
    pub fn with_threads(world: World<R, C>, capacity: usize, thread_count: usize) -> (dispatcher: Self)
        requires
            world@.wf(),
            0 < capacity <= MAX_QUEUE_CAPACITY,
        ensures
            dispatcher.wf(),
            dispatcher.systems() == Seq::<SystemExecutor<S>>::empty(),
            dispatcher@ == Self::fresh(world@, capacity as nat, thread_count as nat, None),
    {
        Self::new_priv(world, capacity, Some(thread_count), None)
    }

    /// A dispatcher over `world` whose workers sleep for `sleep_time`
    /// before each system.
    pub fn with_sleep(world: World<R, C>, capacity: usize, sleep_time: Duration) -> (dispatcher: Self)
        requires
            world@.wf(),
            0 < capacity <= MAX_QUEUE_CAPACITY,
        ensures
            dispatcher.wf(),
            dispatcher.systems() == Seq::<SystemExecutor<S>>::empty(),
            dispatcher@ == Self::fresh(
                world@,
                capacity as nat,
                dispatcher@.thread_count,
                Some(sleep_time),
            ),
            dispatcher@.thread_count >= 1,
    {
        Self::new_priv(world, capacity, None, Some(sleep_time))
    }

    /// A dispatcher over `world` with `thread_count` workers that sleep for
    /// `sleep_time` before each system.
    pub fn with_threads_and_sleep(
        world: World<R, C>,
        capacity: usize,
        thread_count: usize,
        sleep_time: Duration,
    ) -> (dispatcher: Self)
        requires
            world@.wf(),
            0 < capacity <= MAX_QUEUE_CAPACITY,
        ensures
            dispatcher.wf(),
            dispatcher.systems() == Seq::<SystemExecutor<S>>::empty(),
            dispatcher@ == Self::fresh(
                world@,
                capacity as nat,
                thread_count as nat,
                Some(sleep_time),
            ),
    {
        Self::new_priv(world, capacity, Some(thread_count), Some(sleep_time))
    }

    /// The queue of the systems that wait.
    pub fn queue(&self) -> (queue: &SystemQueue)
        ensures
            queue@ == self@.queue,
            self.wf() ==> queue.wf(),
    {
        &self.shared.queue
    }

    /// The executor of the system at `system`, if there is one.
    pub fn executor(&self, system: SystemId) -> (executor: Option<&SystemExecutor<S>>)
        ensures
            match executor {
                Some(executor) => system < self.systems().len() && *executor
                    == self.systems()[system as int],
                None => system >= self.systems().len(),
            },
    {
        if system < self.shared.systems.len() {
            Some(&self.shared.systems[system])
        } else {
            None
        }
    }

    /// What all workers are to do.
    pub fn status(&self) -> (status: Status)
        ensures
            status == self@.status,
    {
        self.shared.status
    }

    /// The counter of the workers that have parked.
    pub fn parked(&self) -> (parked: usize)
        ensures
            parked == self@.parked,
    {
        self.shared.parked
    }

    /// The number of workers that `dispatch` spawns up to.
    pub fn thread_count(&self) -> (count: usize)
        ensures
            count == self@.thread_count,
    {
        self.thread_count
    }

    /// The number of workers that were spawned.
    pub fn workers(&self) -> (count: usize)
        ensures
            count == self@.workers.len(),
    {
        self.threads.len()
    }

    /// The state of the worker at `worker`, if there is one.
    pub fn worker_state(&self, worker: usize) -> (state: Option<WorkerState>)
        ensures
            state == if worker < self@.workers.len() {
                Some(self@.workers[worker as int])
            } else {
                None
            },
    {
        if worker < self.threads.len() {
            Some(self.threads[worker].state)
        } else {
            None
        }
    }

    /// The time that a worker sleeps before it runs a system.
    pub fn sleep_time(&self) -> (sleep_time: Option<Duration>)
        ensures
            sleep_time == self@.sleep_time,
    {
        self.shared.sleep_time
    }

    /// Takes `executor` into the table of systems and queues it. Where the
    /// dispatcher owns as many systems as its queue can ever hold, the
    /// executor comes back.
    pub fn add_executor(&mut self, executor: SystemExecutor<S>) -> (res: Result<
        (),
        SystemExecutor<S>,
    >)
        requires
            old(self).wf(),
        ensures
            final(self).wf(),
            res.is_ok() == (old(self)@.systems <= old(self)@.queue.capacity),
            match res {
                Ok(_) => final(self).systems() == old(self).systems().push(executor) && final(self)@ == (DispatcherView {
                    queue: old(self)@.queue.pushed(old(self)@.systems as SystemId),
                    systems: old(self)@.systems + 1,
                    ..old(self)@
                }),
                Err(back) => back == executor && final(self)@ == old(self)@ && final(self).systems() == old(self).systems(),
            },
    {
        let id = self.shared.systems.len();
        proof {
            self.shared.queue.lemma_wf();
        }
        if id > self.shared.queue.capacity() {
            return Err(executor);
        }
        match self.shared.queue.push(id) {
            Ok(_) => {},
            Err(_) => vstd::pervasive::unreached(),
        }
        self.shared.systems.push(executor);
        proof {
            let before = old(self)@;
            let after = self@;
            lemma_push_contains(before.queue.ring, id);
            assert forall|system: SystemId| #[trigger] after.queue.contains(system) implies system
                < after.systems by {
                if system != id {
                    assert(before.queue.contains(system));
                }
            }
        }
        Ok(())
    }

    /// Spawns workers until there are as many as the dispatcher was made
    /// for.
    pub fn dispatch(&mut self)
        requires
            old(self).wf(),
            old(self)@.world_borrow == 0,
        ensures
            final(self).wf(),
            final(self).systems() == old(self).systems(),
            final(self)@.workers.len() == if old(self)@.workers.len() < old(self)@.thread_count {
                old(self)@.thread_count
            } else {
                old(self)@.workers.len()
            },
            final(self)@ == (DispatcherView { workers: final(self)@.workers, ..old(self)@ }),
            forall|i: int|
                0 <= i < old(self)@.workers.len() ==> final(self)@.workers[i] == old(
                    self,
                )@.workers[i],
            forall|i: int|
                old(self)@.workers.len() <= i < final(self)@.workers.len() ==> final(self)@.workers[i] == WorkerState::Idle,
    {
        while self.threads.len() < self.thread_count
            invariant
                self.wf(),
                self@.world_borrow == 0,
                self.systems() == old(self).systems(),
                self@ == (DispatcherView { workers: self@.workers, ..old(self)@ }),
                old(self)@.workers.len() <= self@.workers.len(),
                self@.workers.len() <= old(self)@.thread_count || self@.workers.len() == old(
                    self,
                )@.workers.len(),
                forall|i: int|
                    0 <= i < old(self)@.workers.len() ==> self@.workers[i] == old(
                        self,
                    )@.workers[i],
                forall|i: int|
                    old(self)@.workers.len() <= i < self@.workers.len() ==> self@.workers[i]
                        == WorkerState::Idle,
            decreases self.thread_count - self.threads@.len(),
        {
            let ghost before = self@;
            self.threads.push(DispatchThread::spawn());
            proof {
                assert(self@.workers =~= before.workers.push(WorkerState::Idle));
                assert(self@.workers.drop_last() =~= before.workers);
                lemma_all_parked_not(before.workers);
                assert forall|i: int| 0 <= i < self@.workers.len() implies (
                #[trigger] self@.workers[i] matches WorkerState::Holding(system) ==> system
                    < self@.systems) by {
                    if i < before.workers.len() {
                        assert(self@.workers[i] == before.workers[i]);
                    }
                }
                assert(self@.wf());
            }
        }
    }

    /// One turn of the loop of the worker at `worker`: what the worker has
    /// decided, and what its thread is to do next.
    pub fn step(&mut self, worker: usize) -> (action: WorkerAction)
        requires
            old(self).wf(),
            worker < old(self)@.workers.len(),
        ensures
            final(self).wf(),
            final(self).systems() == old(self).systems(),
            final(self)@ == old(self)@.stepped(worker as int),
            old(self)@.tells(worker as int, action),
    {
        let ghost before = self@;
        proof {
            self.shared.queue.lemma_wf();
            lemma_count_bounds(before.workers);
            lemma_count_update(before.workers, worker as int, WorkerState::Idle);
            if is_exclusive(before.world_borrow) {
                lemma_all_parked(before.workers);
            }
        }
        match self.threads[worker].state {
            WorkerState::Exited => {
                return WorkerAction::Exit;
            },
            WorkerState::Holding(system) => {
                return WorkerAction::Run { system, sleep: self.shared.sleep_time };
            },
            WorkerState::Parked => {
                self.threads[worker].state = WorkerState::Idle;
                self.shared.parked = self.shared.parked - 1;
                assert(self@.workers =~= before.workers.update(worker as int, WorkerState::Idle));
            },
            WorkerState::Idle => {},
        }
        let ghost woken = self@;
        assert(woken == before.unparked(worker as int));
        assert(woken.workers[worker as int] == WorkerState::Idle);
        match self.shared.status {
            Status::Running => match self.shared.queue.pop() {
                Some(system) => {
                    self.threads[worker].state = WorkerState::Holding(system);
                    proof {
                        assert(self@.workers =~= woken.workers.update(
                            worker as int,
                            WorkerState::Holding(system),
                        ));
                        lemma_count_update(
                            woken.workers,
                            worker as int,
                            WorkerState::Holding(system),
                        );
                        assert(woken.queue.contains(system)) by {
                            if woken.queue.cache.is_none() {
                                assert(woken.queue.ring[0] == system);
                            }
                        }
                        assert forall|other: SystemId| #[trigger]
                            self@.queue.contains(other) implies other < self@.systems by {
                            if woken.queue.cache.is_none() {
                                if self@.queue.ring.contains(other) {
                                    let i = choose|i: int|
                                        0 <= i < self@.queue.ring.len() && self@.queue.ring[i]
                                            == other;
                                    assert(woken.queue.ring[i + 1] == other);
                                }
                            }
                            assert(woken.queue.contains(other));
                        }
                    }
                    WorkerAction::Run { system, sleep: self.shared.sleep_time }
                },
                None => {
                    let rest = self.threads[worker].backoff.is_completed();
                    self.threads[worker].backoff.snooze();
                    WorkerAction::Idle { rest }
                },
            },
            Status::Parked => {
                let count = self.threads.len();
                proof {
                    lemma_count_update(woken.workers, worker as int, WorkerState::Parked);
                    lemma_count_bounds(woken.workers.update(worker as int, WorkerState::Parked));
                    assert(woken.parked == count_parked(woken.workers));
                    assert(woken.workers.len() == count);
                    assert(woken.parked + 1 <= count);
                }
                self.shared.parked = self.shared.parked + 1;
                self.threads[worker].state = WorkerState::Parked;
                assert(self@.workers =~= woken.workers.update(worker as int, WorkerState::Parked));
                WorkerAction::Park
            },
            Status::Shutdown => {
                proof {
                    lemma_count_update(woken.workers, worker as int, WorkerState::Exited);
                }
                self.threads[worker].state = WorkerState::Exited;
                assert(self@.workers =~= woken.workers.update(worker as int, WorkerState::Exited));
                WorkerAction::Exit
            },
        }
    }

    /// Runs the system that the worker at `worker` holds, puts the system
    /// back on the queue, and returns what the run returned; `None` where
    /// the worker holds no system. Where the run could not take what it
    /// needs, the world stays as it is; either way the system is queued
    /// again.
    pub fn run(&mut self, worker: usize) -> (res: Option<Result<(), RetrievalError>>) where
        S: System<R, C>,

        requires
            old(self).wf(),
            worker < old(self)@.workers.len(),
        ensures
            final(self).wf(),
            final(self).systems().len() == old(self).systems().len(),
            match old(self)@.workers[worker as int] {
                WorkerState::Holding(system) => res.is_some() && final(self)@ == (DispatcherView {
                    workers: old(self)@.workers.update(worker as int, WorkerState::Idle),
                    queue: old(self)@.queue.pushed(system),
                    world: final(self)@.world,
                    ..old(self)@
                }) && old(self)@.queue.has_room() && old(self)@.world.same_structure(
                    final(self)@.world,
                ) && final(self)@.world.resource_lock == old(self)@.world.resource_lock && final(self)@.world.component_lock == old(self)@.world.component_lock && slots_kept(
                    old(self)@.world.resources,
                    final(self)@.world.resources,
                ) && columns_kept(old(self)@.world.components, final(self)@.world.components)
                    && unwritten_kept(
                    old(self)@.world.resources,
                    final(self)@.world.resources,
                    old(self).systems()[system as int].system().resource_pack(),
                ) && unwritten_kept(
                    old(self)@.world.components,
                    final(self)@.world.components,
                    old(self).systems()[system as int].system().component_pack(),
                ) && res.unwrap().err() == acquire_error(
                    old(self)@.world.resource_lock,
                    old(self)@.world.resources,
                    old(self)@.world.component_lock,
                    old(self)@.world.components,
                    old(self).systems()[system as int].system().resource_pack(),
                    old(self).systems()[system as int].system().component_pack(),
                ) && (res.unwrap().is_err() ==> final(self)@.world == old(self)@.world && final(self).systems() == old(self).systems()),
                _ => res.is_none() && final(self)@ == old(self)@ && final(self).systems() == old(
                    self,
                ).systems(),
            },
            forall|other: int|
                0 <= other < old(self).systems().len() && old(self)@.workers[worker as int]
                    != WorkerState::Holding(other as SystemId) ==> #[trigger] final(self).systems()[other] == old(self).systems()[other],
            res == Some(Ok::<(), RetrievalError>(())) ==> exists|
                system: &mut S,
                slots: &mut ResourceStorageAllocator<R>,
                columns: &mut ComponentStorageAllocator<C>,
                resource_guards: &Vec<ResourceGuard>,
                component_guards: &Vec<ComponentGuard>,
            |
                #![trigger call_ensures(
                    <S as System<R, C>>::execute,
                    (system, slots, columns, resource_guards, component_guards),
                    (),
                )]
                call_ensures(
                    <S as System<R, C>>::execute,
                    (system, slots, columns, resource_guards, component_guards),
                    (),
                ) && *system == old(self).systems()[old(self)@.workers[worker as int].held() as int].system()
                    && *final(system) == final(self).systems()[old(
                    self,
                )@.workers[worker as int].held() as int].system() && resource_requests(resource_guards@)
                    == system.resource_pack() && component_requests(component_guards@)
                    == system.component_pack() && slots@ == slots_with_borrows(
                    old(self)@.world.resources,
                    granted_all(slot_borrows(old(self)@.world.resources), system.resource_pack()),
                ) && columns@ == columns_with_borrows(
                    old(self)@.world.components,
                    granted_all(
                        column_borrows(old(self)@.world.components),
                        system.component_pack(),
                    ),
                ) && final(self)@.world.resources == slots_with_borrows(
                    final(slots)@,
                    slot_borrows(old(self)@.world.resources),
                ) && final(self)@.world.components == columns_with_borrows(
                    final(columns)@,
                    column_borrows(old(self)@.world.components),
                ),
    {
        let ghost before = self@;
        let system = match self.threads[worker].state {
            WorkerState::Holding(system) => system,
            _ => {
                return None;
            },
        };
        proof {
            self.shared.queue.lemma_wf();
            lemma_count_bounds(before.workers);
            lemma_count_update(before.workers, worker as int, WorkerState::Idle);
            if is_exclusive(before.world_borrow) {
                lemma_all_parked(before.workers);
            }
            assert(before.workers[worker as int] == WorkerState::Holding(system));
            assert(system < before.systems);
        }
        let guard = match self.shared.world.try_borrow() {
            Some(guard) => guard,
            None => vstd::pervasive::unreached(),
        };
        let res = self.shared.world.get_mut().execute(&mut self.shared.systems[system]);
        proof {
            if res.is_err() {
                assert(self.shared.systems@ =~= old(self).shared.systems@);
            }
        }
        self.shared.world.release(guard);
        match self.shared.queue.push(system) {
            Ok(_) => {},
            Err(_) => vstd::pervasive::unreached(),
        }
        self.threads[worker].backoff.reset();
        self.threads[worker].state = WorkerState::Idle;
        proof {
            let after = self@;
            assert(after.workers =~= before.workers.update(worker as int, WorkerState::Idle));
            lemma_push_contains(before.queue.ring, system);
            assert forall|other: SystemId| #[trigger] after.queue.contains(other) implies other
                < after.systems by {
                if other != system {
                    assert(before.queue.contains(other));
                }
            }
            assert forall|i: int| 0 <= i < after.workers.len() implies (
            #[trigger] after.workers[i] matches WorkerState::Holding(held) ==> held
                < after.systems) by {
                if i != worker {
                    assert(after.workers[i] == before.workers[i]);
                }
            }
        }
        Some(res)
    }

    /// Asks for the world: tells the workers to park, and lends the world
    /// out once every worker has parked. Until then the caller is to wait
    /// as `backoff` advises, and ask again.
    pub fn world(&mut self, backoff: &Backoff) -> (request: WorldRequest)
        requires
            old(self).wf(),
        ensures
            final(self).wf(),
            final(self).systems() == old(self).systems(),
            match request {
                WorldRequest::Granted(_) => old(self)@.parked == old(self)@.workers.len() && old(
                    self,
                )@.world_borrow == 0 && final(self)@ == (DispatcherView {
                    status: Status::Parked,
                    world_borrow: crate::cell::MUTABLY_BORROWED,
                    ..old(self)@
                }) && final(self)@.all_parked(),
                WorldRequest::Wait { .. } => !(old(self)@.parked == old(self)@.workers.len() && old(
                    self,
                )@.world_borrow == 0) && final(self)@ == (DispatcherView {
                    status: Status::Parked,
                    ..old(self)@
                }),
            },
    {
        self.shared.status = Status::Parked;
        if self.shared.parked == self.threads.len() {
            match self.shared.world.try_borrow_mut() {
                Some(guard) => {
                    proof {
                        lemma_all_parked(self@.workers);
                    }
                    return WorldRequest::Granted(WorldHandle { guard });
                },
                None => {},
            }
        }
        if backoff.is_completed() {
            WorldRequest::Wait { sleep: true }
        } else {
            backoff.snooze();
            WorldRequest::Wait { sleep: false }
        }
    }

    /// The world behind the handle.
    pub fn world_ref(&self, handle: &WorldHandle) -> (world: &World<R, C>)
        ensures
            world@ == self@.world,
    {
        self.shared.world.read_unguarded()
    }

    /// The world behind the handle, open to change.
    pub fn world_mut(&mut self, handle: &WorldHandle) -> (world: &mut World<R, C>)
        requires
            old(self).wf(),
        ensures
            world@ == old(self)@.world,
            final(self)@ == (DispatcherView { world: final(world)@, ..old(self)@ }),
            final(self).systems() == old(self).systems(),
            final(world)@.wf() ==> final(self).wf(),
    {
        self.shared.world.write(&handle.guard)
    }

    /// Takes the world back and lets the workers run again: each parked
    /// worker goes on with its loop once its thread is unparked.
    pub fn release_world(&mut self, handle: WorldHandle)
        requires
            old(self).wf(),
            is_exclusive(old(self)@.world_borrow),
        ensures
            final(self).wf(),
            final(self).systems() == old(self).systems(),
            final(self)@ == (DispatcherView {
                status: Status::Running,
                world_borrow: 0,
                ..old(self)@
            }),
            final(self)@.all_parked(),
    {
        proof {
            lemma_all_parked(self@.workers);
        }
        let WorldHandle { guard } = handle;
        self.shared.world.release_mut(guard);
        self.shared.status = Status::Running;
    }

    /// Tells the workers to leave their loops, and says whether it did so:
    /// it does not while the world is lent out.
    pub fn stop(&mut self) -> (stopped: bool)
        requires
            old(self).wf(),
        ensures
            final(self).wf(),
            final(self).systems() == old(self).systems(),
            stopped == !is_exclusive(old(self)@.world_borrow),
            final(self)@ == if stopped {
                DispatcherView { status: Status::Shutdown, ..old(self)@ }
            } else {
                old(self)@
            },
    {
        if self.shared.world.borrow_state() == crate::cell::MUTABLY_BORROWED {
            false
        } else {
            self.shared.status = Status::Shutdown;
            true
        }
    }

    /// Ends the dispatcher and gives the world back, with everything that
    /// was added to it.
    pub fn shutdown(self) -> (world: World<R, C>)
        requires
            self.wf(),
        ensures
            world@ == self@.world,
            world@.wf(),
    {
        self.shared.world.into_inner()
    }
}

/// A worker more that has not parked means that not all have parked.
proof fn lemma_all_parked_not(workers: Seq<WorkerState>)
    ensures
        count_parked(workers.push(WorkerState::Idle)) == count_parked(workers),
        count_holding(workers.push(WorkerState::Idle)) == count_holding(workers),
        count_parked(workers) <= workers.len(),
{
    assert(workers.push(WorkerState::Idle).drop_last() =~= workers);
    lemma_count_bounds(workers);
}

/// Collects what a dispatcher is made of.
pub struct DispatchBuilder<S> {
    thread_count: Option<usize>,
    sleep_time: Option<Duration>,
    systems: Vec<SystemExecutor<S>>,
}

impl<S> DispatchBuilder<S> {
    /// The number of workers that was asked for, if one was.
    pub closed spec fn thread_count(&self) -> Option<usize> {
        self.thread_count
    }

    /// The time that was asked for, if one was.
    pub closed spec fn sleep_time(&self) -> Option<Duration> {
        self.sleep_time
    }

    /// The systems that were added, in their order.
    pub closed spec fn systems(&self) -> Seq<SystemExecutor<S>> {
        self.systems@
    }

    /// A builder with nothing set and no system.
    pub fn new() -> (builder: Self)
        ensures
            builder.thread_count().is_none(),
            builder.sleep_time().is_none(),
            builder.systems() == Seq::<SystemExecutor<S>>::empty(),
    {
        Self { thread_count: None, sleep_time: None, systems: Vec::new() }
    }

    /// A builder with nothing set and no system, with room for `capacity`
    /// systems.
    pub fn with_capacity(capacity: usize) -> (builder: Self)
        ensures
            builder.thread_count().is_none(),
            builder.sleep_time().is_none(),
            builder.systems() == Seq::<SystemExecutor<S>>::empty(),
    {
        Self { thread_count: None, sleep_time: None, systems: Vec::with_capacity(capacity) }
    }

    /// Adds `system`.
    pub fn with_system(self, system: S) -> (builder: Self)
        ensures
            builder.thread_count() == self.thread_count(),
            builder.sleep_time() == self.sleep_time(),
            builder.systems().len() == self.systems().len() + 1,
            builder.systems().drop_last() == self.systems(),
            builder.systems().last().system() == system,
    {
        let mut builder = self;
        builder.systems.push(SystemExecutor::new(system));
        assert(builder.systems@.drop_last() =~= self.systems@);
        builder
    }

    /// Sets the number of workers.
    pub fn with_threads(self, thread_count: usize) -> (builder: Self)
        ensures
            builder.thread_count() == Some(thread_count),
            builder.sleep_time() == self.sleep_time(),
            builder.systems() == self.systems(),
    {
        let mut builder = self;
        builder.thread_count = Some(thread_count);
        builder
    }

    /// Sets the time that a worker sleeps before it runs a system.
    pub fn with_sleep(self, sleep_time: Duration) -> (builder: Self)
        ensures
            builder.thread_count() == self.thread_count(),
            builder.sleep_time() == Some(sleep_time),
            builder.systems() == self.systems(),
    {
        let mut builder = self;
        builder.sleep_time = Some(sleep_time);
        builder
    }

    /// The number of systems that were added.
    pub fn len(&self) -> (len: usize)
        ensures
            len == self.systems().len(),
    {
        self.systems.len()
    }

    /// Makes the dispatcher over `world`: its ring has room for exactly the
    /// systems that were added, and they wait in it in their order. At
    /// least one system must have been added.
    pub fn build<R, C>(self, world: World<R, C>) -> (dispatcher: Dispatcher<S, R, C>)
        requires
            world@.wf(),
            0 < self.systems().len() <= MAX_QUEUE_CAPACITY,
        ensures
            dispatcher.wf(),
            dispatcher.systems() == self.systems(),
            dispatcher@ == (DispatcherView {
                queue: QueueView {
                    cache: None,
                    ring: Seq::new(self.systems().len(), |i: int| i as SystemId),
                    capacity: self.systems().len(),
                },
                systems: self.systems().len(),
                ..Dispatcher::<S, R, C>::fresh(
                    world@,
                    self.systems().len(),
                    dispatcher@.thread_count,
                    self.sleep_time(),
                )
            }),
            match self.thread_count() {
                Some(count) => dispatcher@.thread_count == count,
                None => dispatcher@.thread_count >= 1,
            },
    {
        let count = self.systems.len();
        let mut dispatcher = Dispatcher::new_priv(world, count, self.thread_count, self.sleep_time);
        let ghost made = dispatcher@;
        let mut id: usize = 0;
        assert(dispatcher@.queue.ring =~= Seq::new(0nat, |i: int| i as SystemId));
        while id < count
            invariant
                id <= count,
                count == self.systems@.len(),
                dispatcher.shared.queue.wf(),
                dispatcher.shared.systems@.len() == 0,
                dispatcher@ == (DispatcherView {
                    queue: QueueView {
                        cache: None,
                        ring: Seq::new(id as nat, |i: int| i as SystemId),
                        capacity: count as nat,
                    },
                    ..made
                }),
            decreases count - id,
        {
            match dispatcher.shared.queue.push_no_cache(id) {
                Ok(_) => {},
                Err(_) => vstd::pervasive::unreached(),
            }
            assert(dispatcher@.queue.ring =~= Seq::new((id + 1) as nat, |i: int| i as SystemId));
            id += 1;
        }
        dispatcher.shared.systems = self.systems;
        proof {
            let view = dispatcher@;
            lemma_no_worker(view.workers);
            assert forall|system: SystemId| #[trigger] view.queue.contains(system) implies system
                < view.systems by {
                let i = choose|i: int| 0 <= i < view.queue.ring.len() && view.queue.ring[i] == system;
                assert(view.queue.ring[i] == i as SystemId);
            }
        }
        dispatcher
    }
}

/// Of no workers, none has parked and none holds a system.
proof fn lemma_no_worker(workers: Seq<WorkerState>)
    requires
        workers.len() == 0,
    ensures
        count_parked(workers) == 0,
        count_holding(workers) == 0,
{
}

} // verus!
