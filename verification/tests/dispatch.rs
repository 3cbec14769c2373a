use std::time::Duration;

use crossbeam::utils::Backoff;
use ecs_core::component::ComponentTuple;
use ecs_core::resource::ResourceTuple;
use ecs_core::storage::{ComponentStorageAllocator, ResourceStorageAllocator};
use ecs_core::system::dispatch::{
    DispatchBuilder, Dispatcher, Status, SystemQueue, WorkerAction, WorkerState, WorldRequest,
    MAX_QUEUE_CAPACITY,
};
use ecs_core::system::executor::SystemExecutor;
use ecs_core::system::{ComponentGuard, Request, ResourceGuard, RetrievalError, System};
use ecs_core::world::query::{Query, QuerySystem, Update};
use ecs_core::World;

const CLOCK: u64 = 1;

struct Increment {
    exclusive: bool,
    runs: u32,
}

impl System<u64, i32> for Increment {
    fn resources(&self) -> Vec<Request> {
        if self.exclusive {
            vec![Request::Write(CLOCK)]
        } else {
            vec![Request::Read(CLOCK)]
        }
    }

    fn components(&self) -> Vec<Request> {
        Vec::new()
    }

    fn execute(
        &mut self,
        resources: &mut ResourceStorageAllocator<u64>,
        _components: &mut ComponentStorageAllocator<i32>,
        resource_guards: &Vec<ResourceGuard>,
        _component_guards: &Vec<ComponentGuard>,
    ) {
        self.runs += 1;
        if let ResourceGuard::Write(clock) = &resource_guards[0] {
            *resources.resource_mut(clock).unwrap() += 1;
        }
    }
}

fn world_with_clock() -> World<u64, i32> {
    let mut world = World::new();
    world.add_resources(ResourceTuple::single(CLOCK, 0u64));
    world
}

fn clock_of(world: &mut World<u64, i32>) -> u64 {
    let query = Query::query(vec![Request::Read(CLOCK)], Vec::new());
    let taken = query.fetch_resources(world).unwrap();
    let value = match &taken.guards()[0] {
        ResourceGuard::Read(guard) => *world.resource(guard).unwrap(),
        ResourceGuard::Write(_) => unreachable!(),
    };
    taken.release(world);
    value
}

fn lend(dispatcher: &mut Dispatcher<Increment, u64, i32>) -> WorldRequest {
    dispatcher.world(&Backoff::new())
}

#[test]
fn queue_fills_the_cache_before_the_ring() {
    let mut queue = SystemQueue::new(2);
    assert_eq!(queue.capacity(), 2);
    assert_eq!(queue.pop(), None);
    assert_eq!(queue.push(10), Ok(()));
    assert_eq!(queue.cached(), Some(10));
    assert_eq!(queue.ring_len(), 0);
    assert_eq!(queue.push(11), Ok(()));
    assert_eq!(queue.push(12), Ok(()));
    assert_eq!(queue.ring_len(), 2);
    assert_eq!(queue.push(13), Err(13));
    assert_eq!(queue.pop(), Some(10));
    assert_eq!(queue.cached(), None);
    assert_eq!(queue.pop(), Some(11));
    assert_eq!(queue.push(14), Ok(()));
    assert_eq!(queue.cached(), Some(14));
    assert_eq!(queue.pop(), Some(14));
    assert_eq!(queue.pop(), Some(12));
    assert_eq!(queue.pop(), None);
}

#[test]
fn queue_push_past_the_cache_goes_to_the_ring() {
    let mut queue = SystemQueue::new(1);
    assert_eq!(queue.push_no_cache(5), Ok(()));
    assert_eq!(queue.cached(), None);
    assert_eq!(queue.ring_len(), 1);
    assert_eq!(queue.push_no_cache(6), Err(6));
    assert_eq!(queue.push(7), Ok(()));
    assert_eq!(queue.push(8), Err(8));
    assert_eq!(queue.pop(), Some(7));
    assert_eq!(queue.pop(), Some(5));
    assert!(MAX_QUEUE_CAPACITY >= 1 << 20);
}

#[test]
fn built_dispatcher_queues_its_systems_in_order() {
    let dispatcher: Dispatcher<Increment, u64, i32> = DispatchBuilder::with_capacity(2)
        .with_system(Increment { exclusive: true, runs: 0 })
        .with_system(Increment { exclusive: false, runs: 0 })
        .with_threads(3)
        .with_sleep(Duration::from_millis(2))
        .build(world_with_clock());
    assert_eq!(dispatcher.thread_count(), 3);
    assert_eq!(dispatcher.sleep_time(), Some(Duration::from_millis(2)));
    assert_eq!(dispatcher.status(), Status::Running);
    assert_eq!(dispatcher.workers(), 0);
    assert_eq!(dispatcher.parked(), 0);
    assert_eq!(dispatcher.queue().capacity(), 2);
    assert_eq!(dispatcher.queue().ring_len(), 2);
    assert_eq!(dispatcher.queue().cached(), None);
    assert!(dispatcher.executor(0).unwrap().get().exclusive);
    assert!(!dispatcher.executor(1).unwrap().get().exclusive);
    assert!(dispatcher.executor(2).is_none());
    assert_eq!(DispatchBuilder::<Increment>::new().len(), 0);
}

#[test]
fn default_thread_count_is_at_least_one() {
    let dispatcher: Dispatcher<Increment, u64, i32> = Dispatcher::new(world_with_clock(), 4);
    assert!(dispatcher.thread_count() >= 1);
    assert_eq!(dispatcher.sleep_time(), None);
    let dispatcher: Dispatcher<Increment, u64, i32> =
        Dispatcher::with_sleep(world_with_clock(), 4, Duration::from_millis(1));
    assert!(dispatcher.thread_count() >= 1);
    assert_eq!(dispatcher.sleep_time(), Some(Duration::from_millis(1)));
    let dispatcher: Dispatcher<Increment, u64, i32> =
        Dispatcher::with_threads(world_with_clock(), 4, 6);
    assert_eq!(dispatcher.thread_count(), 6);
    let dispatcher: Dispatcher<Increment, u64, i32> =
        Dispatcher::with_threads_and_sleep(world_with_clock(), 4, 0, Duration::from_millis(3));
    assert_eq!(dispatcher.thread_count(), 0);
    assert_eq!(dispatcher.queue().capacity(), 4);
}

#[test]
fn added_executor_comes_back_once_the_queue_is_full() {
    let mut dispatcher: Dispatcher<Increment, u64, i32> =
        Dispatcher::with_threads(world_with_clock(), 1, 1);
    assert!(dispatcher.add_executor(SystemExecutor::new(Increment { exclusive: true, runs: 0 })).is_ok());
    assert_eq!(dispatcher.queue().cached(), Some(0));
    assert!(dispatcher.add_executor(SystemExecutor::new(Increment { exclusive: true, runs: 1 })).is_ok());
    assert_eq!(dispatcher.queue().ring_len(), 1);
    let back = dispatcher
        .add_executor(SystemExecutor::new(Increment { exclusive: true, runs: 2 }))
        .unwrap_err();
    assert_eq!(back.get().runs, 2);
    assert!(dispatcher.executor(2).is_none());
}

#[test]
fn worker_takes_runs_and_requeues_a_system() {
    let mut dispatcher = DispatchBuilder::new()
        .with_system(Increment { exclusive: true, runs: 0 })
        .with_threads(2)
        .build(world_with_clock());
    dispatcher.dispatch();
    assert_eq!(dispatcher.workers(), 2);
    dispatcher.dispatch();
    assert_eq!(dispatcher.workers(), 2);
    assert_eq!(dispatcher.worker_state(0), Some(WorkerState::Idle));
    assert_eq!(dispatcher.worker_state(2), None);
    assert_eq!(dispatcher.run(0), None);

    match dispatcher.step(0) {
        WorkerAction::Run { system, sleep } => {
            assert_eq!(system, 0);
            assert_eq!(sleep, None);
        }
        other => panic!("{:?}", other),
    }
    assert_eq!(dispatcher.worker_state(0), Some(WorkerState::Holding(0)));
    assert!(matches!(dispatcher.step(1), WorkerAction::Idle { .. }));
    assert!(matches!(dispatcher.step(0), WorkerAction::Run { system: 0, .. }));
    assert_eq!(dispatcher.run(0), Some(Ok(())));
    assert_eq!(dispatcher.worker_state(0), Some(WorkerState::Idle));
    assert_eq!(dispatcher.queue().cached(), Some(0));
    assert_eq!(dispatcher.executor(0).unwrap().get().runs, 1);

    assert!(matches!(dispatcher.step(1), WorkerAction::Run { system: 0, .. }));
    assert_eq!(dispatcher.run(1), Some(Ok(())));
    assert_eq!(dispatcher.executor(0).unwrap().get().runs, 2);
    let mut world = dispatcher.shutdown();
    assert_eq!(clock_of(&mut world), 2);
}

#[test]
fn worker_sleeps_before_a_system_where_that_is_set() {
    let mut dispatcher = DispatchBuilder::new()
        .with_system(Increment { exclusive: true, runs: 0 })
        .with_threads(1)
        .with_sleep(Duration::from_millis(5))
        .build(world_with_clock());
    dispatcher.dispatch();
    match dispatcher.step(0) {
        WorkerAction::Run { system, sleep } => {
            assert_eq!(system, 0);
            assert_eq!(sleep, Some(Duration::from_millis(5)));
        }
        other => panic!("{:?}", other),
    }
}

#[test]
fn idle_worker_is_told_to_rest_once_its_backoff_is_spent() {
    let mut dispatcher: Dispatcher<Increment, u64, i32> =
        Dispatcher::with_threads(world_with_clock(), 1, 1);
    dispatcher.dispatch();
    let mut rested = false;
    for turn in 0..40 {
        match dispatcher.step(0) {
            WorkerAction::Idle { rest } => {
                if turn == 0 {
                    assert!(!rest);
                }
                rested = rested || rest;
            }
            other => panic!("{:?}", other),
        }
    }
    assert!(rested);
}

#[test]
fn system_that_cannot_take_its_packs_is_requeued() {
    let mut dispatcher = DispatchBuilder::new()
        .with_system(Increment { exclusive: true, runs: 0 })
        .with_system(Increment { exclusive: false, runs: 0 })
        .with_threads(2)
        .build(world_with_clock());
    dispatcher.dispatch();
    assert!(matches!(lend(&mut dispatcher), WorldRequest::Wait { .. }));
    assert!(matches!(dispatcher.step(0), WorkerAction::Park));
    assert!(matches!(dispatcher.step(1), WorkerAction::Park));
    let handle = match lend(&mut dispatcher) {
        WorldRequest::Granted(handle) => handle,
        WorldRequest::Wait { .. } => panic!("all workers have parked"),
    };
    let held = Query::query(vec![Request::Read(CLOCK)], Vec::new())
        .fetch_resources(dispatcher.world_mut(&handle))
        .unwrap();
    dispatcher.release_world(handle);

    assert!(matches!(dispatcher.step(0), WorkerAction::Run { system: 0, .. }));
    assert!(matches!(dispatcher.step(1), WorkerAction::Run { system: 1, .. }));
    assert_eq!(dispatcher.run(0), Some(Err(RetrievalError::ResourceStorageInUse)));
    assert_eq!(dispatcher.run(1), Some(Ok(())));
    assert_eq!(dispatcher.executor(0).unwrap().get().runs, 0);
    assert_eq!(dispatcher.executor(1).unwrap().get().runs, 1);
    assert_eq!(dispatcher.queue().cached(), Some(0));
    assert_eq!(dispatcher.queue().ring_len(), 1);

    let mut world = dispatcher.shutdown();
    held.release(&mut world);
    assert_eq!(clock_of(&mut world), 0);
}

#[test]
fn world_is_lent_out_only_while_every_worker_is_parked() {
    let mut dispatcher = DispatchBuilder::new()
        .with_system(Increment { exclusive: true, runs: 0 })
        .with_threads(4)
        .build(world_with_clock());
    dispatcher.dispatch();
    assert!(matches!(dispatcher.step(2), WorkerAction::Run { system: 0, .. }));
    assert_eq!(dispatcher.run(2), Some(Ok(())));

    assert!(matches!(lend(&mut dispatcher), WorldRequest::Wait { .. }));
    assert_eq!(dispatcher.status(), Status::Parked);
    for worker in 0..3 {
        assert!(matches!(dispatcher.step(worker), WorkerAction::Park));
        assert!(matches!(lend(&mut dispatcher), WorldRequest::Wait { .. }));
    }
    assert_eq!(dispatcher.parked(), 3);
    assert!(matches!(dispatcher.step(3), WorkerAction::Park));
    assert_eq!(dispatcher.parked(), 4);
    let handle = match lend(&mut dispatcher) {
        WorldRequest::Granted(handle) => handle,
        WorldRequest::Wait { .. } => panic!("all workers have parked"),
    };
    for worker in 0..4 {
        assert_eq!(dispatcher.worker_state(worker), Some(WorkerState::Parked));
    }
    assert!(clock_of(dispatcher.world_mut(&handle)) >= 1);
    assert_eq!(dispatcher.world_ref(&handle).entities().len(), 0);
    dispatcher
        .world_mut(&handle)
        .create_entity(ComponentTuple::single(5, 50));
    assert!(matches!(lend(&mut dispatcher), WorldRequest::Wait { .. }));
    for worker in 0..4 {
        assert!(matches!(dispatcher.step(worker), WorkerAction::Park));
        assert_eq!(dispatcher.worker_state(worker), Some(WorkerState::Parked));
    }
    assert_eq!(dispatcher.parked(), 4);
    assert!(!dispatcher.stop());
    assert_eq!(dispatcher.status(), Status::Parked);

    dispatcher.release_world(handle);
    assert_eq!(dispatcher.status(), Status::Running);
    assert!(matches!(dispatcher.step(1), WorkerAction::Run { system: 0, .. }));
    assert_eq!(dispatcher.parked(), 3);
    assert_eq!(dispatcher.run(1), Some(Ok(())));
    assert!(matches!(dispatcher.step(0), WorkerAction::Run { system: 0, .. }));
    assert_eq!(dispatcher.parked(), 2);
    assert_eq!(dispatcher.run(0), Some(Ok(())));
    let mut world = dispatcher.shutdown();
    assert_eq!(clock_of(&mut world), 3);
    assert_eq!(world.entities().len(), 1);
}

#[test]
fn shutdown_without_workers_returns_the_world() {
    let mut world = world_with_clock();
    let entity = world.create_entity(ComponentTuple::single(3, 30));
    let mut dispatcher: Dispatcher<Increment, u64, i32> = Dispatcher::with_threads(world, 2, 0);
    dispatcher.dispatch();
    assert_eq!(dispatcher.workers(), 0);
    let handle = match lend(&mut dispatcher) {
        WorldRequest::Granted(handle) => handle,
        WorldRequest::Wait { .. } => panic!("there is no worker to wait for"),
    };
    dispatcher.release_world(handle);
    assert!(dispatcher.stop());
    let mut world = dispatcher.shutdown();
    assert_eq!(world.entities(), &[entity]);
    assert_eq!(clock_of(&mut world), 0);
    assert!(world.archetype_of(entity).unwrap().components().contains(3));
}

#[test]
fn stopped_workers_leave_their_loops() {
    let mut dispatcher = DispatchBuilder::new()
        .with_system(Increment { exclusive: true, runs: 0 })
        .with_threads(2)
        .build(world_with_clock());
    dispatcher.dispatch();
    assert!(matches!(dispatcher.step(0), WorkerAction::Run { system: 0, .. }));
    assert!(dispatcher.stop());
    assert_eq!(dispatcher.status(), Status::Shutdown);
    assert!(matches!(dispatcher.step(1), WorkerAction::Exit));
    assert_eq!(dispatcher.worker_state(1), Some(WorkerState::Exited));
    assert!(matches!(dispatcher.step(0), WorkerAction::Run { system: 0, .. }));
    assert_eq!(dispatcher.run(0), Some(Ok(())));
    assert!(matches!(dispatcher.step(0), WorkerAction::Exit));
    assert!(matches!(dispatcher.step(0), WorkerAction::Exit));
    let mut world = dispatcher.shutdown();
    assert_eq!(clock_of(&mut world), 1);
}

#[test]
fn query_system_makes_the_changes_that_its_pack_allows() {
    let mut world: World<u64, i32> = world_with_clock();
    let entity = world.create_entity(ComponentTuple::single(5, 50));
    let query = Query::query(vec![Request::Write(CLOCK)], vec![Request::Read(5)]);
    let system = query.build_system(
        |resources: &ResourceStorageAllocator<u64>,
         components: &ComponentStorageAllocator<i32>,
         resource_guards: &Vec<ResourceGuard>,
         component_guards: &Vec<ComponentGuard>| {
            let clock = match &resource_guards[0] {
                ResourceGuard::Write(guard) => {
                    assert_eq!(guard.type_key(), CLOCK);
                    7
                }
                ResourceGuard::Read(_) => unreachable!(),
            };
            let seen = match &component_guards[0] {
                ComponentGuard::Read(guard) => components.storage(guard).unwrap().len(),
                ComponentGuard::Write(_) => unreachable!(),
            };
            assert_eq!(seen, 1);
            assert!(resources.contains(CLOCK));
            vec![
                Update::Resource(CLOCK, clock),
                Update::Resource(CLOCK, clock + 1),
                Update::Component(5, 0, 99),
                Update::Resource(77, 1),
            ]
        },
    );
    let mut executor = SystemExecutor::new(system);
    assert_eq!(world.execute(&mut executor), Ok(()));
    assert_eq!(clock_of(&mut world), 8);
    let taken = Query::query(Vec::new(), vec![Request::Read(5)])
        .fetch_components(&mut world)
        .unwrap();
    match &taken.guards()[0] {
        ComponentGuard::Read(guard) => {
            assert_eq!(world.column(guard).unwrap().get_item(entity.id()), Some(&50))
        }
        ComponentGuard::Write(_) => unreachable!(),
    }
    taken.release(&mut world);
    let direct: QuerySystem<_, u64, i32> = QuerySystem::new(
        |_: &ResourceStorageAllocator<u64>,
         _: &ComponentStorageAllocator<i32>,
         _: &Vec<ResourceGuard>,
         _: &Vec<ComponentGuard>| vec![Update::Component(5, 0, 51)],
        Vec::new(),
        vec![Request::Write(5)],
    );
    let mut executor = SystemExecutor::new(direct);
    assert_eq!(world.execute(&mut executor), Ok(()));
    let taken = Query::query(Vec::new(), vec![Request::Read(5)])
        .fetch_components(&mut world)
        .unwrap();
    match &taken.guards()[0] {
        ComponentGuard::Read(guard) => {
            assert_eq!(world.column(guard).unwrap().get_item(entity.id()), Some(&51))
        }
        ComponentGuard::Write(_) => unreachable!(),
    }
    taken.release(&mut world);
}
