use ecs_core::cell::AtomicRefCell;
use ecs_core::storage::{
    ComponentStorageAllocator, ReadComponent, ReadResource, ResourceStorageAllocator,
    WriteComponent, WriteResource,
};
use ecs_core::system::executor::{acquire, release, SystemExecutor};
use ecs_core::system::{
    fetch_components, fetch_resources, release_components, release_resources, ComponentData,
    ComponentGuard, Request, ResourceData, ResourceGuard, RetrievalError, System,
};

const CLOCK: u64 = 1;
const SCORE: u64 = 2;
const POSITION: u64 = 10;

struct Tick {
    runs: u32,
}

impl System<u64, i32> for Tick {
    fn resources(&self) -> Vec<Request> {
        vec![Request::Write(CLOCK)]
    }

    fn components(&self) -> Vec<Request> {
        vec![Request::Write(POSITION)]
    }

    fn execute(
        &mut self,
        resources: &mut ResourceStorageAllocator<u64>,
        components: &mut ComponentStorageAllocator<i32>,
        resource_guards: &Vec<ResourceGuard>,
        component_guards: &Vec<ComponentGuard>,
    ) {
        self.runs += 1;
        if let ResourceGuard::Write(clock) = &resource_guards[0] {
            *resources.resource_mut(clock).unwrap() += 1;
        }
        if let ComponentGuard::Write(positions) = &component_guards[0] {
            let column = components.storage_mut(positions).unwrap();
            let ids = column.entities().to_vec();
            for id in ids {
                *column.get_item_mut(id).unwrap() += 10;
            }
        }
    }
}

fn registries() -> (
    AtomicRefCell<ResourceStorageAllocator<u64>>,
    AtomicRefCell<ComponentStorageAllocator<i32>>,
) {
    let mut resources = ResourceStorageAllocator::new();
    resources.register(CLOCK, 0);
    resources.register(SCORE, 100);
    let mut components = ComponentStorageAllocator::new();
    components.register(POSITION);
    components.get_and_update(POSITION, |column| {
        column.push(1, 1).unwrap();
        column.push(2, 2).unwrap();
    });
    (AtomicRefCell::new(resources), AtomicRefCell::new(components))
}

#[test]
fn every_error_has_its_sentence() {
    let expected = [
        (
            RetrievalError::ResourceLockedExclusive,
            "The world resource allocator is currently locked (W).",
        ),
        (
            RetrievalError::ResourceLockedShared,
            "The world resource allocator is currently locked (R).",
        ),
        (
            RetrievalError::ResourceStorageInUse,
            "The requested resource storage is currently in use.",
        ),
        (
            RetrievalError::NoSuchResourceStorage,
            "No storage has been registered for the requested resource.",
        ),
        (
            RetrievalError::ComponentLockedExclusive,
            "The world component allocator is currently locked (W).",
        ),
        (
            RetrievalError::ComponentLockedShared,
            "The world component allocator is currently locked (R).",
        ),
        (
            RetrievalError::ComponentStorageInUse,
            "The requested component storage is currently in use.",
        ),
        (
            RetrievalError::NoSuchComponentStorage,
            "No storage has been registered for the requested component",
        ),
    ];
    for (error, sentence) in expected {
        assert_eq!(error.message(), sentence);
    }
    assert_eq!(Request::Read(3).type_key(), 3);
    assert_eq!(Request::Write(4).type_key(), 4);
}

#[test]
fn single_guards_are_fetched_by_kind() {
    let mut resources: ResourceStorageAllocator<u64> = ResourceStorageAllocator::new();
    resources.register(CLOCK, 0);
    assert_eq!(
        ReadResource::fetch(&mut resources, SCORE).unwrap_err(),
        RetrievalError::NoSuchResourceStorage
    );
    assert_eq!(
        WriteResource::fetch(&mut resources, SCORE).unwrap_err(),
        RetrievalError::NoSuchResourceStorage
    );
    let read = ReadResource::fetch(&mut resources, CLOCK).unwrap();
    assert_eq!(
        WriteResource::fetch(&mut resources, CLOCK).unwrap_err(),
        RetrievalError::ResourceStorageInUse
    );
    resources.release(read);
    let write = WriteResource::fetch(&mut resources, CLOCK).unwrap();
    assert_eq!(
        ReadResource::fetch(&mut resources, CLOCK).unwrap_err(),
        RetrievalError::ResourceStorageInUse
    );
    resources.release_mut(write);

    let mut components: ComponentStorageAllocator<i32> = ComponentStorageAllocator::new();
    components.register(POSITION);
    assert_eq!(
        ReadComponent::fetch(&mut components, 11).unwrap_err(),
        RetrievalError::NoSuchComponentStorage
    );
    assert_eq!(
        WriteComponent::fetch(&mut components, 11).unwrap_err(),
        RetrievalError::NoSuchComponentStorage
    );
    let write = WriteComponent::fetch(&mut components, POSITION).unwrap();
    assert_eq!(
        ReadComponent::fetch(&mut components, POSITION).unwrap_err(),
        RetrievalError::ComponentStorageInUse
    );
    assert_eq!(
        WriteComponent::fetch(&mut components, POSITION).unwrap_err(),
        RetrievalError::ComponentStorageInUse
    );
    components.release_mut(write);
    let read = ReadComponent::fetch(&mut components, POSITION).unwrap();
    assert_eq!(components.borrow_state(POSITION), Some(1));
    components.release(read);
}

#[test]
fn pack_is_fetched_in_order_and_handed_back() {
    let mut resources: ResourceStorageAllocator<u64> = ResourceStorageAllocator::new();
    resources.register(CLOCK, 0);
    resources.register(SCORE, 0);
    let pack = vec![Request::Read(CLOCK), Request::Write(SCORE), Request::Read(CLOCK)];
    let guards = fetch_resources(&mut resources, &pack).unwrap();
    assert_eq!(guards.len(), 3);
    assert!(matches!(&guards[0], ResourceGuard::Read(guard) if guard.type_key() == CLOCK));
    assert!(matches!(&guards[1], ResourceGuard::Write(guard) if guard.type_key() == SCORE));
    assert_eq!(resources.borrow_state(CLOCK), Some(2));
    assert_eq!(resources.borrow_state(SCORE), Some(usize::MAX));
    release_resources(&mut resources, guards);
    assert_eq!(resources.borrow_state(CLOCK), Some(0));
    assert_eq!(resources.borrow_state(SCORE), Some(0));
    assert!(fetch_resources(&mut resources, &Vec::new()).unwrap().is_empty());
}

#[test]
fn refused_pack_leaves_the_registry_as_it_was() {
    let mut components: ComponentStorageAllocator<i32> = ComponentStorageAllocator::new();
    components.register(POSITION);
    components.register(11);
    let outside = components.try_get(11).unwrap();
    let pack = vec![Request::Read(POSITION), Request::Read(11), Request::Write(11)];
    assert_eq!(
        fetch_components(&mut components, &pack).unwrap_err(),
        RetrievalError::ComponentStorageInUse
    );
    assert_eq!(components.borrow_state(POSITION), Some(0));
    assert_eq!(components.borrow_state(11), Some(1));
    let pack = vec![Request::Write(POSITION), Request::Read(12)];
    assert_eq!(
        fetch_components(&mut components, &pack).unwrap_err(),
        RetrievalError::NoSuchComponentStorage
    );
    assert_eq!(components.borrow_state(POSITION), Some(0));
    components.release(outside);
    let guards = fetch_components(&mut components, &vec![Request::Write(11)]).unwrap();
    release_components(&mut components, guards);
    assert_eq!(components.borrow_state(11), Some(0));
}

#[test]
fn run_fails_first_on_a_registry_that_is_borrowed_exclusively() {
    let (mut resources, mut components) = registries();
    let pack = vec![Request::Read(CLOCK)];
    let none: Vec<Request> = Vec::new();
    let held = components.try_borrow_mut().unwrap();
    assert_eq!(
        acquire(&mut resources, &mut components, &pack, &none).unwrap_err(),
        RetrievalError::ComponentLockedExclusive
    );
    assert_eq!(resources.borrow_state(), 0);
    let also = resources.try_borrow_mut().unwrap();
    assert_eq!(
        acquire(&mut resources, &mut components, &pack, &none).unwrap_err(),
        RetrievalError::ResourceLockedExclusive
    );
    resources.release_mut(also);
    components.release_mut(held);
    let acquired = acquire(&mut resources, &mut components, &pack, &none).unwrap();
    assert_eq!(resources.borrow_state(), 1);
    assert_eq!(components.borrow_state(), 1);
    assert_eq!(acquired.resource_guards().len(), 1);
    assert_eq!(acquired.component_guards().len(), 0);
    release(&mut resources, &mut components, acquired);
    assert_eq!(resources.borrow_state(), 0);
    assert_eq!(components.borrow_state(), 0);
}

#[test]
fn run_reports_the_first_refusal_and_takes_nothing() {
    let (mut resources, mut components) = registries();
    let cases = [
        (vec![Request::Read(99)], vec![], RetrievalError::NoSuchResourceStorage),
        (
            vec![Request::Write(CLOCK), Request::Read(CLOCK)],
            vec![Request::Read(99)],
            RetrievalError::ResourceStorageInUse,
        ),
        (
            vec![Request::Write(CLOCK)],
            vec![Request::Read(99)],
            RetrievalError::NoSuchComponentStorage,
        ),
        (
            vec![Request::Write(CLOCK)],
            vec![Request::Read(POSITION), Request::Write(POSITION)],
            RetrievalError::ComponentStorageInUse,
        ),
    ];
    for (resource_pack, component_pack, error) in cases {
        assert_eq!(
            acquire(&mut resources, &mut components, &resource_pack, &component_pack).unwrap_err(),
            error
        );
        assert_eq!(resources.borrow_state(), 0);
        assert_eq!(components.borrow_state(), 0);
        assert_eq!(resources.get_mut().borrow_state(CLOCK), Some(0));
        assert_eq!(components.get_mut().borrow_state(POSITION), Some(0));
    }
}

#[test]
fn executor_runs_the_system_under_its_packs() {
    let (mut resources, mut components) = registries();
    let mut executor = SystemExecutor::new(Tick { runs: 0 });
    assert_eq!(executor.execute(&mut resources, &mut components), Ok(()));
    assert_eq!(executor.execute(&mut resources, &mut components), Ok(()));
    assert_eq!(executor.get().runs, 2);
    assert_eq!(resources.borrow_state(), 0);
    assert_eq!(components.borrow_state(), 0);
    let registry = resources.get_mut();
    assert_eq!(registry.borrow_state(CLOCK), Some(0));
    let guard = registry.get(CLOCK).unwrap();
    assert_eq!(registry.resource(&guard), Some(&2));
    registry.release(guard);
    let registry = components.get_mut();
    let guard = registry.get(POSITION).unwrap();
    assert_eq!(registry.storage(&guard).unwrap().components(), &[21, 22]);
    assert_eq!(registry.storage(&guard).unwrap().entities(), &[1, 2]);
    registry.release(guard);
    assert_eq!(executor.into_inner().runs, 2);
}

#[test]
fn executor_does_not_run_a_system_that_cannot_take_its_packs() {
    let (mut resources, mut components) = registries();
    let mut executor = SystemExecutor::new(Tick { runs: 0 });
    let reader = resources.get_mut().try_get(CLOCK).unwrap();
    assert_eq!(
        executor.execute(&mut resources, &mut components),
        Err(RetrievalError::ResourceStorageInUse)
    );
    assert_eq!(executor.get().runs, 0);
    assert_eq!(resources.get_mut().borrow_state(CLOCK), Some(1));
    assert_eq!(components.get_mut().borrow_state(POSITION), Some(0));
    resources.get_mut().release(reader);
    assert_eq!(executor.execute(&mut resources, &mut components), Ok(()));
    assert_eq!(executor.get().runs, 1);
}
