use ecs_core::entity_id;
use ecs_core::entity_id::EntityId;
use ecs_core::logger::Log;
use ecs_core::logger::LogType;
use ecs_core::logger::LogsQueue;
use ecs_core::logger::LOGS_BUFFER_SIZE;
use ecs_core::metrics;
use ecs_core::placeholder::Placeholder;
use ecs_core::slot_map::push_all;
use ecs_core::slot_map::SyncSlot;
use ecs_core::slot_map::SyncSlotMap;
use ecs_core::timers::ComponetsTimers;
use ecs_core::timers::Timer;

#[test]
fn slot_map_basics() {
    let mut slot_map: SyncSlotMap<u32> = SyncSlotMap::new();

    let slot1 = slot_map.push(10);
    assert_eq!(slot1.as_u32(), 1);
    let slot2 = slot_map.push(20);
    assert_eq!(slot2.as_u32(), 2);

    assert_eq!(slot_map.slots.len(), 2);
    assert_eq!(slot_map.delete(slot1), Some(10));
    assert_eq!(slot_map.delete(slot2), Some(20));
    assert_eq!(slot_map.delete(SyncSlot::from_u32(1)), None);
    assert_eq!(slot_map.delete(SyncSlot::from_u32(2)), None);

    let slot1 = slot_map.push(10);
    assert_eq!(slot1.as_u32(), 1);
    let slot2 = slot_map.push(20);
    assert_eq!(slot2.as_u32(), 2);
    let slot3 = slot_map.push(30);
    assert_eq!(slot3.as_u32(), 3);

    assert_eq!(slot_map.slots.len(), 3);
    assert_eq!(slot_map.delete(slot1), Some(10));
    assert_eq!(slot_map.delete(slot2), Some(20));

    let slot1 = slot_map.push(40);
    assert_eq!(slot_map.delete(slot1), Some(40));
    assert_eq!(slot_map.delete(slot3), Some(30));

    assert_eq!(slot_map.push(20).as_u32(), 2);
    assert_eq!(slot_map.push(10).as_u32(), 1);
    assert_eq!(slot_map.push(30).as_u32(), 3);
    assert_eq!(slot_map.push(40).as_u32(), 4)
}

#[test]
fn pushes_on_empty_map_number_consecutively() {
    // The returned ids for n pushes on an empty allocator are exactly
    // 1..=n: a permutation with no duplicates and no gaps.
    let mut map: SyncSlotMap<u32> = SyncSlotMap::new();
    let values = vec![7u32, 8, 9, 10, 11];
    let keys = push_all(&mut map, &values);
    assert_eq!(keys, vec![1, 2, 3, 4, 5]);
    for (k, v) in values.iter().enumerate() {
        let slot = &map.slots[k];
        assert!(slot.0);
        assert_eq!(slot.1, *v);
    }
}

#[test]
fn test_methods() {
    assert_eq!(EntityId::dead().id(), u16::MAX);
    assert_eq!(EntityId::dead().arch(), u16::MAX);

    assert_eq!(EntityId::dead().as_u32(), u32::MAX);
    assert_eq!(EntityId::from_u32(u32::MAX), EntityId::dead());

    assert_eq!(
        EntityId::from_u32(((u16::MAX as u32) << 16) | 32),
        entity_id::invalid_new(32)
    );

    let id = EntityId::from_u32(32 << 16 | u16::MAX as u32);
    assert_eq!(id.id(), u16::MAX);
    assert_eq!(id.arch(), 32);

    let id = EntityId::from_u32(256 << 16 | 128 as u32);
    assert_eq!(id.id(), 128);
    assert_eq!(id.arch(), 256);
    assert_eq!(id, entity_id::new(128, 256));
}

#[test]
fn entity_id_round_trip() {
    for (slot, arch) in [(1u16, 1u16), (5, 9), (128, 256), (0xFFFE, 0xFFFE)] {
        let x = entity_id::new(slot, arch);
        assert_eq!(EntityId::from_u32(x.as_u32()), x);
    }
    let provisional = entity_id::invalid_new(77);
    assert_eq!(EntityId::from_u32(provisional.as_u32()), provisional);
    assert_eq!(entity_id::new(3, 4).idx(), 3);
    assert_eq!(entity_id::new(3, 4).archx(), 4);
}

#[test]
fn test_write() {
    let mut string = String::default();
    string.push_str("Hello world 1");
    string.push_str("Hello world 2");

    assert_eq!(string, "Hello world 1Hello world 2");
    string.truncate(0);
    string.push_str("Hello World 2");
    assert_eq!(string, "Hello World 2");
}

#[test]
fn logger_in_other_tests() {
    let mut queue = LogsQueue::new();
    let accepted = queue.enqueue(Log::new(LogType::INFO, format!("Hello")));
    assert!(accepted);
}

#[test]
fn log_queue_is_bounded() {
    let mut queue = LogsQueue::new();
    for i in 0..LOGS_BUFFER_SIZE {
        assert!(queue.enqueue(Log::new(LogType::INFO, format!("{}", i))));
    }
    // A full buffer refuses the claim; the record is not stored.
    assert!(!queue.enqueue(Log::new(LogType::ERROR, format!("overflow"))));
    assert_eq!(queue.logs.len(), LOGS_BUFFER_SIZE);
    queue.drain();
    assert_eq!(queue.logs.len(), 0);
    assert!(queue.enqueue(Log::new(LogType::WARNING, format!("again"))));
}

#[test]
fn log_type_labels() {
    assert_eq!(LogType::INFO.label(), "INFO  ");
    assert_eq!(LogType::WARNING.label(), "WARN  ");
    assert_eq!(LogType::ERROR.label(), "ERROR ");
    assert_eq!(LogType::METRIC.label(), "METRIC");
}

#[test]
fn test_next_cycle_wrapping() {
    assert_eq!(u32::MAX, u32::MAX.saturating_add(1));
    assert_eq!((u32::MAX, true), u32::MIN.overflowing_sub(1));
}

#[test]
fn test_next_cycle_and_metric() {
    const METRICS_UNINIT: u32 = 0;
    const FULL: u32 = metrics::FULL_CYCLE_BITS_LEN;
    const ID_BITS: u32 = metrics::CYCLE_ID_BITS_LEN;

    let time_since_app_init_cycle1 = 1u128;
    let time_since_app_init_cycle2 = 10u128;
    let time_since_app_init_cycle3 = 15u128;
    let time_since_app_init_cycle4 = 20u128;

    // Cycle 1: the first timestamp is only recorded.
    let (cycle, stamp) = metrics::next_cycle(0, 0, time_since_app_init_cycle1);
    assert_eq!(cycle, METRICS_UNINIT);
    assert_eq!(stamp, time_since_app_init_cycle1);

    // Cycle 2: elapsed time lands in the word, cycle id starts at 1.
    let (cycle, stamp) = metrics::next_cycle(cycle, stamp, time_since_app_init_cycle2);
    assert_eq!(cycle, {
        let time_since_prev_cycle =
            (time_since_app_init_cycle2 - time_since_app_init_cycle1) as u32;
        let cycle_id = 1 << (FULL - ID_BITS);
        time_since_prev_cycle | cycle_id
    });
    assert_eq!(stamp, time_since_app_init_cycle2);

    // Cycle 3: force the milliseconds part to overflow.
    let forced = (u32::MAX >> ID_BITS) | (1 << (FULL - ID_BITS));
    let (cycle, stamp) = metrics::next_cycle(forced, stamp, time_since_app_init_cycle3);
    assert_eq!(cycle, 0 | (2 << (FULL - ID_BITS)));
    assert_eq!(stamp, time_since_app_init_cycle3);

    // Cycle 4: force both the id and the milliseconds to overflow.
    let (cycle, stamp) = metrics::next_cycle(u32::MAX, stamp, time_since_app_init_cycle4);
    assert_eq!(cycle, 0 | (1 << (FULL - ID_BITS)));
    assert_eq!(stamp, time_since_app_init_cycle4);
}

#[test]
fn macro_test_metric() {
    let overflow_buffer = metrics::METRICS_OVERFLOW_BUFFER as u64;

    // The counter leaves its overflow buffer: the metric logs and is
    // restamped under cycle word 0.
    let (metric, logged) = metrics::metric_step(overflow_buffer, 0);
    assert!(logged);
    assert_eq!(metric, 1 + overflow_buffer);

    // A full interval passed since the metric's recorded cycle word.
    let (metric, logged) = metrics::metric_step(metric, u32::MAX);
    assert!(logged);
    assert_eq!(metric, ((u32::MAX as u64) << 32) | (2 + overflow_buffer));

    // The cycle word moved backwards past the metric: log again.
    let (metric, logged) = metrics::metric_step(metric, 0);
    assert!(logged);
    assert_eq!(metric, 3 + overflow_buffer);

    // A counter away from its buffer with no elapsed interval stays put.
    let (metric, logged) = metrics::metric_step(u32::MAX as u64, 0);
    assert!(!logged);
    assert_eq!(metric, u32::MAX as u64);

    // Logging with a saturated counter wraps it to zero.
    let (metric, logged) = metrics::metric_step(u32::MAX as u64, u32::MAX);
    assert!(logged);
    assert_eq!(metric, ((u32::MAX as u64) << 32) | 0);
}

#[test]
fn next_cycle_ignores_stale_timestamps() {
    let (cycle, stamp) = metrics::next_cycle(42, 100, 100);
    assert_eq!((cycle, stamp), (42, 100));
    let (cycle, stamp) = metrics::next_cycle(42, 100, 50);
    assert_eq!((cycle, stamp), (42, 100));
}

#[test]
fn timers_recycle_slots() {
    let mut timers = ComponetsTimers::new();
    let a = timers.add(Timer { component_id: 1, end: 100 });
    let b = timers.add(Timer { component_id: 2, end: 200 });
    assert_eq!(a.as_u32(), 1);
    assert_eq!(b.as_u32(), 2);
    assert_eq!(
        timers.expire(a),
        Some(Timer { component_id: 1, end: 100 })
    );
    assert_eq!(timers.expire(SyncSlot::from_u32(1)), None);
    // The expired slot's id comes back for the next timer.
    let c = timers.add(Timer { component_id: 3, end: 300 });
    assert_eq!(c.as_u32(), 1);
    assert_eq!(timers.timers.slots.len(), 2);
}

#[test]
fn placeholder_take_replace_get() {
    let mut slot: Placeholder<u32> = Placeholder::Empty;
    assert!(matches!(slot.replace(5), Placeholder::Empty));
    assert!(matches!(slot.take(), Placeholder::Content(5)));
    assert!(matches!(slot, Placeholder::Empty));
    slot.replace(7);
    let taken = slot.get("borrowed");
    assert!(matches!(taken, Placeholder::Content(7)));
    assert!(matches!(slot, Placeholder::Placeholder(_)));
}
