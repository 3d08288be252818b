use ecs_core::components::components_fetch_decision;
use ecs_core::components::unique_fetch_decision;
use ecs_core::components::Components;
use ecs_core::components::FetchAction;
use ecs_core::components::FetchError;
use ecs_core::query::query1;
use ecs_core::system::Stage;
use ecs_core::system::SystemResult;
use ecs_core::system::UnitReturn;
use ecs_core::world::Schedule;
use ecs_core::world::Unique;
use ecs_core::world::World;
use ecs_core::world::WorldError;

const SIMPLE_SYSTEM: u64 = 1;
const INPUT_TOKEN: u64 = 10;

struct Position;

struct Input {
    x: u32,
    y: u32,
}

#[test]
fn world_test() {
    let mut world = World::new();

    let mut input = Unique::new(Input { x: 10, y: 20 });
    world.state.add_unique(INPUT_TOKEN).unwrap();
    world
        .state
        .add_system(
            SIMPLE_SYSTEM,
            "simple_system",
            UnitReturn::Returned(SystemResult::Initialized),
            Schedule::Update,
        )
        .unwrap();

    // The driving loop invokes each queued unit's body itself and hands the
    // scheduler the reports; the body here mirrors the registered unit.
    let mut position: Components<Position> = Components::new();
    let mut outcomes: Vec<UnitReturn> = Vec::new();
    for item in world.state.scheduler.stages.update.items.iter() {
        assert_eq!(item.key, SIMPLE_SYSTEM);
        position.set(10, 10, Position);
        assert_eq!(input.value().x, 10);
        assert_eq!(input.value().y, 20);
        input.value_mut().x += 1;

        let mut resulted_entity_id = 0;
        for (_arch, entity_id) in query1(&position) {
            resulted_entity_id = entity_id;
        }
        assert_eq!(resulted_entity_id, 10);
        outcomes.push(UnitReturn::Returned(SystemResult::Completed));
    }
    world.execute(&outcomes).unwrap();
    world.execute(&Vec::new()).unwrap();
}

#[test]
fn second_initialized_aborts_frame() {
    // A unit returning "Initialized" again during Execution is fatal, with
    // an error naming that unit.
    let mut world = World::new();
    world
        .state
        .add_system(
            7,
            "confused_unit",
            UnitReturn::Returned(SystemResult::Initialized),
            Schedule::Update,
        )
        .unwrap();
    let outcomes = vec![UnitReturn::Returned(SystemResult::Initialized)];
    let err = world.execute(&outcomes).unwrap_err();
    assert_eq!(
        err,
        WorldError::SystemReturnedInitialized { name: "confused_unit" }
    );
}

#[test]
fn failed_unit_aborts_frame_at_first_offender() {
    let mut world = World::new();
    world
        .state
        .add_system(1, "first", UnitReturn::Returned(SystemResult::Initialized), Schedule::Update)
        .unwrap();
    world
        .state
        .add_system(2, "second", UnitReturn::Returned(SystemResult::Initialized), Schedule::Update)
        .unwrap();
    let outcomes = vec![
        UnitReturn::Returned(SystemResult::Completed),
        UnitReturn::Failed,
    ];
    let err = world.execute(&outcomes).unwrap_err();
    assert_eq!(err, WorldError::SystemFailed { name: "second" });
}

#[test]
fn stop_is_not_fatal_and_queues_reset() {
    let mut world = World::new();
    world
        .state
        .add_system(3, "stopper", UnitReturn::Returned(SystemResult::Initialized), Schedule::Update)
        .unwrap();
    let outcomes = vec![UnitReturn::Returned(SystemResult::Stop)];
    world.execute(&outcomes).unwrap();
    assert_eq!(world.state.scheduler.stages.update.items.len(), 0);
}

#[test]
fn registration_protocol_violations() {
    let mut world = World::new();
    let err = world
        .state
        .add_system(4, "eager", UnitReturn::Returned(SystemResult::Completed), Schedule::Update)
        .unwrap_err();
    assert_eq!(err, WorldError::SystemNotInitialized { name: "eager" });

    let err = world
        .state
        .add_system(5, "quitter", UnitReturn::Returned(SystemResult::Stop), Schedule::Update)
        .unwrap_err();
    assert_eq!(err, WorldError::SystemStoppedDuringInit { name: "quitter" });

    let err = world
        .state
        .add_system(6, "broken", UnitReturn::Failed, Schedule::Update)
        .unwrap_err();
    assert_eq!(err, WorldError::SystemFailed { name: "broken" });
}

#[test]
fn resources_insert_once() {
    let mut world = World::new();
    world.state.add_resource(INPUT_TOKEN).unwrap();
    assert_eq!(
        world.state.add_resource(INPUT_TOKEN),
        Err(WorldError::ResourceExists)
    );
    // The explicit set path tolerates an existing entry.
    assert!(world.state.set_resource(INPUT_TOKEN));
    assert!(!world.state.set_resource(11));
    assert_eq!(world.state.add_unique(12), Ok(()));
    assert_eq!(world.state.add_unique(12), Err(WorldError::UniqueExists));
}

#[test]
fn fetch_protocol() {
    // Typed component stores: lazily created during Initialization only.
    assert_eq!(
        components_fetch_decision(Stage::Instantination, false),
        Err(FetchError::InstantinationFetch)
    );
    assert_eq!(
        components_fetch_decision(Stage::Instantination, true),
        Err(FetchError::InstantinationFetch)
    );
    assert_eq!(
        components_fetch_decision(Stage::Initialization, true),
        Ok(FetchAction::UseExisting)
    );
    assert_eq!(
        components_fetch_decision(Stage::Initialization, false),
        Ok(FetchAction::CreateNew)
    );
    assert_eq!(
        components_fetch_decision(Stage::Execution, true),
        Ok(FetchAction::UseExisting)
    );
    assert_eq!(
        components_fetch_decision(Stage::Execution, false),
        Err(FetchError::NonExists)
    );

    // Unique resources are never created lazily.
    assert_eq!(
        unique_fetch_decision(Stage::Initialization, false),
        Err(FetchError::UniqueNotRegistered)
    );
    assert_eq!(
        unique_fetch_decision(Stage::Initialization, true),
        Ok(FetchAction::UseExisting)
    );
    assert_eq!(
        unique_fetch_decision(Stage::Execution, false),
        Err(FetchError::NonExists)
    );
}

#[test]
fn record_is_reused_per_token() {
    let mut world = World::new();
    world
        .state
        .add_system(9, "tick", UnitReturn::Returned(SystemResult::Initialized), Schedule::Update)
        .unwrap();
    world
        .state
        .add_system(9, "tock", UnitReturn::Returned(SystemResult::Initialized), Schedule::Update)
        .unwrap();
    // One record, queued twice; the first registration named it.
    assert_eq!(world.state.systems.len(), 1);
    assert_eq!(world.state.scheduler.stages.update.items.len(), 2);
    assert_eq!(world.state.systems[0].1.name(), "tick");
}
