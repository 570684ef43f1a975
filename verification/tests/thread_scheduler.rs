use ginkgo_kernel::thread_scheduler::policy::{
    Authority, ConfigError, OpaqueThreadKey, SchedulerConfig, SchedulingClass,
};
use ginkgo_kernel::thread_scheduler::scheduler::{
    DonationError, RunDisposition, SchedulerError, SchedulerInitError, ThreadScheduler,
};
use ginkgo_kernel::thread_scheduler::table::ThreadState;

fn key(slot: u64) -> OpaqueThreadKey {
    OpaqueThreadKey::new(slot, 1).unwrap()
}

fn add(
    scheduler: &mut ThreadScheduler<OpaqueThreadKey>,
    slot: u64,
    class: SchedulingClass,
    authority: Authority,
    now_ns: u64,
) {
    scheduler
        .add_thread(key(slot), class, authority, now_ns)
        .unwrap();
}

#[test]
fn class_order_and_fifo_quantum_rotation_are_deterministic() {
    let mut scheduler = ThreadScheduler::<OpaqueThreadKey>::try_with_default_policy(64).unwrap();
    add(
        &mut scheduler,
        1,
        SchedulingClass::Normal,
        Authority::User,
        0,
    );
    add(
        &mut scheduler,
        2,
        SchedulingClass::Interactive,
        Authority::System,
        0,
    );
    add(
        &mut scheduler,
        3,
        SchedulingClass::Interactive,
        Authority::System,
        0,
    );

    let first = scheduler.next_dispatch(0).unwrap();
    assert_eq!(first.key, key(2));
    assert_eq!(first.class, SchedulingClass::Interactive);
    assert_eq!(first.quantum_ns, 2_000_000);
    scheduler
        .finish_dispatch(
            first.key,
            first.quantum_ns,
            2_000_000,
            RunDisposition::Runnable,
        )
        .unwrap();

    let second = scheduler.next_dispatch(2_000_000).unwrap();
    assert_eq!(second.key, key(3));
    scheduler
        .finish_dispatch(second.key, 1, 2_000_001, RunDisposition::Runnable)
        .unwrap();
    assert_eq!(scheduler.next_dispatch(2_000_001).unwrap().key, key(2));
}

#[test]
fn aging_gives_background_work_bounded_progress() {
    let mut scheduler = ThreadScheduler::<OpaqueThreadKey>::try_with_default_policy(64).unwrap();
    add(
        &mut scheduler,
        1,
        SchedulingClass::Critical,
        Authority::Kernel,
        0,
    );
    add(
        &mut scheduler,
        2,
        SchedulingClass::Background,
        Authority::User,
        0,
    );

    assert_eq!(scheduler.next_dispatch(49_999_999).unwrap().key, key(1));
    scheduler
        .finish_dispatch(key(1), 1, 50_000_000, RunDisposition::Runnable)
        .unwrap();
    assert_eq!(scheduler.next_dispatch(50_000_000).unwrap().key, key(2));
}

#[test]
fn exhausted_budget_throttles_then_replenishes() {
    let mut scheduler = ThreadScheduler::<OpaqueThreadKey>::try_with_default_policy(64).unwrap();
    add(
        &mut scheduler,
        1,
        SchedulingClass::Audio,
        Authority::System,
        0,
    );

    for end in [1_000_000, 2_000_000, 3_000_000] {
        let dispatch = scheduler.next_dispatch(end - 1_000_000).unwrap();
        assert_eq!(dispatch.quantum_ns, 1_000_000);
        scheduler
            .finish_dispatch(dispatch.key, 1_000_000, end, RunDisposition::Runnable)
            .unwrap();
    }
    let throttled = scheduler.snapshot(key(1)).unwrap();
    assert_eq!(throttled.state, ThreadState::Throttled);
    assert_eq!(throttled.budget_remaining_ns, 0);
    assert!(scheduler.next_dispatch(9_999_999).is_none());

    let replenished = scheduler.next_dispatch(10_000_000).unwrap();
    assert_eq!(replenished.key, key(1));
    assert_eq!(replenished.quantum_ns, 1_000_000);
    let metrics = scheduler.snapshot(key(1)).unwrap().metrics;
    assert_eq!(metrics.throttling_events, 1);
    assert_eq!(metrics.throttled_time_ns, 7_000_000);
}

#[test]
fn wake_wait_deadline_and_switch_metrics_are_accounted() {
    let mut scheduler = ThreadScheduler::<OpaqueThreadKey>::try_with_default_policy(64).unwrap();
    add(
        &mut scheduler,
        1,
        SchedulingClass::Interactive,
        Authority::System,
        100,
    );
    scheduler.block(key(1)).unwrap();
    scheduler.wake(key(1), 1_000).unwrap();
    scheduler.set_deadline(key(1), 1_500).unwrap();

    let dispatch = scheduler.next_dispatch(3_100_000).unwrap();
    assert_eq!(dispatch.key, key(1));
    let metrics = scheduler.snapshot(key(1)).unwrap().metrics;
    assert_eq!(metrics.runnable_wait_ns, 3_099_000);
    assert_eq!(metrics.wake_latency_ns, 3_099_000);
    assert_eq!(metrics.maximum_wake_latency_ns, 3_099_000);
    assert_eq!(metrics.wake_latency_samples, 1);
    assert_eq!(metrics.wake_latency_target_misses, 1);
    assert_eq!(metrics.context_switches, 1);
    assert_eq!(metrics.deadline_misses, 1);
}

#[test]
fn bounded_donation_chain_boosts_and_cancels_every_recipient() {
    let mut config = SchedulerConfig::default();
    config.max_donation_depth = 2;
    let mut scheduler = ThreadScheduler::<OpaqueThreadKey>::try_new(config, 64).unwrap();
    add(
        &mut scheduler,
        1,
        SchedulingClass::Audio,
        Authority::System,
        0,
    );
    add(
        &mut scheduler,
        2,
        SchedulingClass::Normal,
        Authority::User,
        0,
    );
    add(
        &mut scheduler,
        3,
        SchedulingClass::Background,
        Authority::User,
        0,
    );
    add(
        &mut scheduler,
        4,
        SchedulingClass::Interactive,
        Authority::System,
        0,
    );

    let token = scheduler
        .donate_chain(key(1), &[key(2), key(3)], 10_000, 0)
        .unwrap();
    assert_eq!(
        scheduler.snapshot(key(2)).unwrap().effective_class,
        SchedulingClass::Audio
    );
    assert_eq!(
        scheduler.snapshot(key(3)).unwrap().effective_class,
        SchedulingClass::Audio
    );
    assert_eq!(scheduler.next_dispatch(0).unwrap().key, key(1));
    scheduler.block(key(1)).unwrap();
    assert_eq!(scheduler.next_dispatch(0).unwrap().key, key(2));

    assert!(scheduler.cancel_donation(token, 1));
    assert_eq!(
        scheduler.snapshot(key(2)).unwrap().effective_class,
        SchedulingClass::Normal
    );
    assert_eq!(
        scheduler.snapshot(key(3)).unwrap().effective_class,
        SchedulingClass::Background
    );
    assert_eq!(
        scheduler.donate_chain(key(4), &[key(1), key(2), key(3)], 10_000, 0),
        Err(DonationError::ChainTooDeep)
    );
}

#[test]
fn donation_expires_and_disconnect_unwinds_nested_boosts() {
    let mut scheduler = ThreadScheduler::<OpaqueThreadKey>::try_with_default_policy(64).unwrap();
    add(
        &mut scheduler,
        1,
        SchedulingClass::Interactive,
        Authority::System,
        0,
    );
    add(
        &mut scheduler,
        2,
        SchedulingClass::Normal,
        Authority::User,
        0,
    );
    add(
        &mut scheduler,
        3,
        SchedulingClass::Background,
        Authority::User,
        0,
    );
    let token = scheduler
        .donate_chain(key(1), &[key(2), key(3)], 100, 0)
        .unwrap();

    scheduler.maintain(100);
    assert_eq!(
        scheduler.snapshot(key(2)).unwrap().effective_class,
        SchedulingClass::Normal
    );
    assert!(!scheduler.cancel_donation(token, 100));

    scheduler
        .donate_chain(key(1), &[key(2), key(3)], 1_000, 100)
        .unwrap();
    assert_eq!(scheduler.cancel_donations_from(key(1), 200), 1);
    assert_eq!(
        scheduler.snapshot(key(3)).unwrap().effective_class,
        SchedulingClass::Background
    );
}

#[test]
fn bounded_storage_rejects_excess_threads_without_changing_live_state() {
    let mut scheduler = ThreadScheduler::<OpaqueThreadKey>::try_with_default_policy(2).unwrap();
    add(
        &mut scheduler,
        1,
        SchedulingClass::Normal,
        Authority::User,
        0,
    );
    add(
        &mut scheduler,
        2,
        SchedulingClass::Background,
        Authority::User,
        0,
    );
    let capacities: (usize, [usize; 5], usize) = (
        scheduler.threads.capacity(),
        std::array::from_fn(|index| scheduler.queues[index].capacity()),
        scheduler.donations.capacity(),
    );
    assert_eq!(
        scheduler.add_thread(key(3), SchedulingClass::Normal, Authority::User, 0),
        Err(SchedulerError::CapacityReached)
    );
    scheduler.block(key(1)).unwrap();
    scheduler.wake(key(1), 10).unwrap();
    let dispatch = scheduler.next_dispatch(10).unwrap();
    scheduler
        .finish_dispatch(dispatch.key, 1, 11, RunDisposition::Runnable)
        .unwrap();
    assert_eq!(scheduler.len(), 2);
    assert_eq!(
        capacities,
        (
            scheduler.threads.capacity(),
            std::array::from_fn(|index| scheduler.queues[index].capacity()),
            scheduler.donations.capacity(),
        )
    );
}

#[test]
fn admission_and_generation_tags_reject_implicit_promotion_and_stale_identity() {
    let mut scheduler = ThreadScheduler::<OpaqueThreadKey>::try_with_default_policy(64).unwrap();
    assert_eq!(
        scheduler.add_thread(key(1), SchedulingClass::Audio, Authority::User, 0),
        Err(SchedulerError::UnauthorizedClass(SchedulingClass::Audio))
    );

    let old = OpaqueThreadKey::new(7, 1).unwrap();
    let replacement = OpaqueThreadKey::new(7, 2).unwrap();
    scheduler
        .add_thread(old, SchedulingClass::Normal, Authority::User, 0)
        .unwrap();
    scheduler.remove_thread(old, 0).unwrap();
    scheduler
        .add_thread(replacement, SchedulingClass::Normal, Authority::User, 0)
        .unwrap();
    assert!(scheduler.snapshot(old).is_none());
    assert!(scheduler.snapshot(replacement).is_some());
}

#[test]
fn configurations_are_checked_before_anything_is_made() {
    let mut config = SchedulerConfig::default();
    config.max_donation_depth = 0;
    assert_eq!(config.validate(), Err(ConfigError::ZeroDonationDepth));
    assert_eq!(
        ThreadScheduler::<OpaqueThreadKey>::try_new(config, 4).err(),
        Some(SchedulerInitError::InvalidConfig(ConfigError::ZeroDonationDepth))
    );
}

#[test]
fn unknown_threads_are_refused_everywhere() {
    let mut scheduler = ThreadScheduler::<OpaqueThreadKey>::try_with_default_policy(4).unwrap();
    assert_eq!(scheduler.block(key(1)), Err(SchedulerError::UnknownKey));
    assert_eq!(scheduler.wake(key(1), 0), Err(SchedulerError::UnknownKey));
    assert_eq!(
        scheduler.set_deadline(key(1), 5),
        Err(SchedulerError::UnknownKey)
    );
    assert!(scheduler.snapshot(key(1)).is_none());
    assert_eq!(scheduler.next_dispatch(0), None);
}

#[test]
fn a_donation_never_weakens_and_its_end_restores() {
    let mut scheduler = ThreadScheduler::<OpaqueThreadKey>::try_with_default_policy(4).unwrap();
    add(&mut scheduler, 1, SchedulingClass::Background, Authority::User, 0);
    add(&mut scheduler, 2, SchedulingClass::Normal, Authority::User, 0);
    let token = scheduler.donate_chain(key(1), &[key(2)], 100, 0).unwrap();
    assert_eq!(
        scheduler.snapshot(key(2)).unwrap().effective_class,
        SchedulingClass::Normal
    );
    assert!(scheduler.cancel_donation(token, 1));
    assert_eq!(
        scheduler.snapshot(key(2)).unwrap().effective_class,
        SchedulingClass::Normal
    );
}

#[test]
fn keys_have_a_generation() {
    assert!(OpaqueThreadKey::new(1, 0).is_none());
    let made = OpaqueThreadKey::new(3, 4).unwrap();
    assert_eq!((made.slot(), made.generation()), (3, 4));
}

#[test]
fn the_same_thread_is_not_added_twice() {
    let mut scheduler = ThreadScheduler::<OpaqueThreadKey>::try_with_default_policy(4).unwrap();
    add(&mut scheduler, 1, SchedulingClass::Normal, Authority::User, 0);
    assert_eq!(
        scheduler.add_thread(key(1), SchedulingClass::Normal, Authority::User, 0),
        Err(SchedulerError::DuplicateKey)
    );
    assert_eq!(
        scheduler.finish_dispatch(key(1), 1, 1, RunDisposition::Runnable),
        Err(SchedulerError::InvalidState)
    );
}

#[test]
fn a_thread_that_leaves_keeps_the_order_of_the_others() {
    let mut scheduler = ThreadScheduler::<OpaqueThreadKey>::try_with_default_policy(8).unwrap();
    for slot in 1..5 {
        add(
            &mut scheduler,
            slot,
            SchedulingClass::Normal,
            Authority::User,
            0,
        );
    }
    scheduler.block(key(2)).unwrap();
    scheduler.wake(key(2), 1).unwrap();
    assert_eq!(scheduler.next_dispatch(2).unwrap().key, key(1));
    assert_eq!(scheduler.next_dispatch(2).unwrap().key, key(3));
    assert_eq!(scheduler.next_dispatch(2).unwrap().key, key(4));
    assert_eq!(scheduler.next_dispatch(2).unwrap().key, key(2));
}

#[test]
fn a_second_maintenance_at_the_same_time_changes_nothing() {
    let mut scheduler = ThreadScheduler::<OpaqueThreadKey>::try_with_default_policy(8).unwrap();
    add(
        &mut scheduler,
        1,
        SchedulingClass::Normal,
        Authority::User,
        0,
    );
    scheduler.maintain(1_000_000_000);
    let once = scheduler.snapshot(key(1)).unwrap();
    scheduler.maintain(1_000_000_000);
    assert_eq!(scheduler.snapshot(key(1)), Some(once));
    assert!(once.next_replenishment_ns > 1_000_000_000);
}

#[test]
fn a_blocked_thread_runs_only_after_its_wake() {
    let mut scheduler = ThreadScheduler::<OpaqueThreadKey>::try_with_default_policy(8).unwrap();
    add(
        &mut scheduler,
        1,
        SchedulingClass::Normal,
        Authority::User,
        0,
    );
    scheduler.block(key(1)).unwrap();
    assert_eq!(scheduler.next_dispatch(5), None);
    scheduler.set_base_class(key(1), SchedulingClass::Background, 6).unwrap();
    assert_eq!(scheduler.next_dispatch(7), None);
    scheduler.wake(key(1), 10).unwrap();
    assert_eq!(scheduler.next_dispatch(25).unwrap().key, key(1));
    let metrics = scheduler.snapshot(key(1)).unwrap().metrics;
    assert_eq!(metrics.wake_latency_ns, 15);
    assert_eq!(metrics.maximum_wake_latency_ns, 15);
    assert_eq!(metrics.wake_latency_samples, 1);
}
