use ginkgo_kernel::wait_runtime::observer::{
    WaitKind, WaitRuntimeDiagnostics, WaitRuntimeError, WaitToken, WakeCause,
};
use ginkgo_kernel::wait_runtime::runtime::WaitRuntime;

fn runtime(capacity: usize) -> WaitRuntime<u32> {
    WaitRuntime::try_new(capacity).unwrap()
}

#[test]
fn stale_generation_is_rejected() {
    let mut runtime = runtime(1);
    let stale = runtime.register(10, WaitKind::WaitMany, None).unwrap();
    assert!(runtime.cancel(stale));

    let current = runtime.register(11, WaitKind::Join, None).unwrap();
    runtime.notify_object(stale);
    assert_eq!(runtime.next_wake(0), None);
    assert_eq!(runtime.diagnostics().stale_notifications, 1);

    runtime.notify_object(current);
    assert_eq!(runtime.next_wake(0).unwrap().key, 11);
}

#[test]
fn slot_reuse_increments_generation() {
    let mut runtime = runtime(1);
    let first = runtime.register(1, WaitKind::WaitMany, None).unwrap();
    assert!(runtime.cancel(first));
    let second = runtime.register(2, WaitKind::WaitMany, None).unwrap();

    assert_eq!(
        first.raw() & 0xffff_ffff,
        second.raw() & 0xffff_ffff
    );
    assert_eq!(second.raw() >> 32, 2);
    assert_ne!(first, second);
}

#[test]
fn cancellation_removes_queued_and_heap_entries() {
    let mut runtime = runtime(1);
    let token = runtime.register(7, WaitKind::Sleep, Some(50)).unwrap();
    runtime.notify_object(token);

    assert!(runtime.cancel(token));
    assert_eq!(runtime.next_deadline_ns(), None);
    assert_eq!(runtime.next_wake(100), None);
    assert_eq!(runtime.diagnostics().active, 0);
}

#[test]
fn repeated_notify_cancel_and_reuse_preserves_queue_capacity() {
    let mut runtime = runtime(1);

    for key in 0..100 {
        let token = runtime.register(key, WaitKind::WaitMany, None).unwrap();
        runtime.notify_object(token);
        assert!(runtime.cancel(token));
    }

    let token = runtime.register(200, WaitKind::WaitMany, None).unwrap();
    runtime.notify_object(token);
    assert_eq!(runtime.next_wake(0).unwrap().key, 200);
    assert_eq!(runtime.diagnostics().queue_peak, 1);
}

#[test]
fn notifications_are_coalesced() {
    let mut runtime = runtime(1);
    let token = runtime.register(3, WaitKind::Join, None).unwrap();

    runtime.notify_object(token);
    runtime.notify_object(token);
    runtime.notify_object(token);

    let wake = runtime.next_wake(0).unwrap();
    assert_eq!(wake.cause, WakeCause::Object);
    assert_eq!(runtime.next_wake(0), None);
    let diagnostics = runtime.diagnostics();
    assert_eq!(diagnostics.object_notifications, 3);
    assert_eq!(diagnostics.coalesced_notifications, 2);
}

#[test]
fn equal_deadlines_are_ordered_by_token() {
    let mut runtime = runtime(3);
    let first = runtime.register(30, WaitKind::Sleep, Some(10)).unwrap();
    let second = runtime.register(10, WaitKind::Sleep, Some(10)).unwrap();
    let third = runtime.register(20, WaitKind::Sleep, Some(10)).unwrap();

    let mut expected = [(first.raw(), 30), (second.raw(), 10), (third.raw(), 20)];
    expected.sort_unstable_by_key(|entry| entry.0);
    for (_, key) in expected {
        let wake = runtime.next_wake(10).unwrap();
        assert_eq!(wake.key, key);
        assert_eq!(wake.cause, WakeCause::Deadline);
    }
}

#[test]
fn readiness_wins_before_an_equal_deadline() {
    let mut runtime = runtime(2);
    let deadline = runtime.register(1, WaitKind::Sleep, Some(10)).unwrap();
    let ready = runtime.register(2, WaitKind::WaitMany, Some(10)).unwrap();
    runtime.notify_object(ready);

    let wake = runtime.next_wake(10).unwrap();
    assert_eq!(wake.token, ready);
    assert_eq!(wake.cause, WakeCause::Object);
    assert_eq!(runtime.next_wake(10).unwrap().token, deadline);
}

#[test]
fn dependency_wakes_use_the_ready_path() {
    let mut runtime = runtime(1);
    let token = runtime.register(9, WaitKind::Join, Some(20)).unwrap();

    assert!(runtime.notify_dependency(token));
    let wake = runtime.next_wake(20).unwrap();
    assert_eq!(wake.cause, WakeCause::Dependency);
    assert_eq!(wake.deadline_ns, Some(20));
    assert_eq!(runtime.next_deadline_ns(), None);
}

#[test]
fn generation_wrap_retires_the_slot() {
    let mut runtime = runtime(1);
    runtime.restart_generation(0, u32::MAX);
    let token = runtime.register(1, WaitKind::WaitMany, None).unwrap();
    assert_eq!(token.raw() >> 32, u64::from(u32::MAX));

    assert!(runtime.cancel(token));
    assert_eq!(
        runtime.register(2, WaitKind::WaitMany, None),
        Err(WaitRuntimeError::CapacityReached)
    );
    assert!(!runtime.cancel(token));
}

#[test]
fn cancellation_by_key_removes_the_active_registration() {
    let mut runtime = runtime(1);
    let token = runtime.register(7, WaitKind::Join, Some(50)).unwrap();
    assert_eq!(runtime.token_for_key(7), Some(token));
    assert!(runtime.cancel_key(7));
    assert_eq!(runtime.token_for_key(7), None);
    assert!(!runtime.cancel_key(7));
    assert_eq!(runtime.next_deadline_ns(), None);
}

#[test]
fn capacity_is_exact() {
    let mut runtime = runtime(2);
    let first = runtime.register(1, WaitKind::WaitMany, None).unwrap();
    runtime.register(2, WaitKind::Join, None).unwrap();
    assert_eq!(
        runtime.register(3, WaitKind::Sleep, None),
        Err(WaitRuntimeError::CapacityReached)
    );

    assert!(runtime.cancel(first));
    assert!(runtime.register(3, WaitKind::Sleep, None).is_ok());
}

#[test]
fn diagnostics_track_lifecycle_and_notifications() {
    let mut runtime = runtime(2);
    let first = runtime.register(1, WaitKind::WaitMany, None).unwrap();
    runtime.notify_object(first);
    runtime.notify_object(first);
    assert!(runtime.notify_dependency(first));
    assert!(runtime.cancel(first));

    let second = runtime.register(2, WaitKind::Sleep, Some(5)).unwrap();
    let wake = runtime.next_wake(5).unwrap();
    assert_eq!(wake.token, second);
    runtime.notify_object(second);

    assert_eq!(
        runtime.diagnostics(),
        WaitRuntimeDiagnostics {
            active: 0,
            peak_active: 1,
            object_notifications: 2,
            dependency_notifications: 1,
            coalesced_notifications: 2,
            stale_notifications: 1,
            deadline_wakes: 1,
            cancellations: 1,
            queue_peak: 1,
        }
    );
}

#[test]
fn tokens_of_ended_waits_stay_stale() {
    let mut runtime = runtime(1);
    let first = runtime.register(1, WaitKind::Request, None).unwrap();
    assert!(runtime.cancel(first));
    runtime.register(2, WaitKind::Request, None).unwrap();
    assert!(!runtime.notify_object(first));
    assert!(!runtime.cancel(first));
}

#[test]
fn tokens_round_trip_through_their_number() {
    let mut runtime = runtime(2);
    let token = runtime.register(1, WaitKind::ProcessTermination, None).unwrap();
    assert_eq!(WaitToken::from_raw(token.raw()), Some(token));
    assert_eq!(WaitToken::from_raw(0), None);
}

#[test]
fn capacities_are_bounded() {
    assert_eq!(
        WaitRuntime::<u32>::try_new(0).err(),
        Some(WaitRuntimeError::InvalidCapacity)
    );
}

#[test]
fn every_slot_can_be_due_and_ready_at_once() {
    let mut runtime = runtime(3);
    let tokens = vec![
        runtime.register(1, WaitKind::Sleep, Some(30)).unwrap(),
        runtime.register(2, WaitKind::Sleep, Some(20)).unwrap(),
        runtime.register(3, WaitKind::Sleep, Some(10)).unwrap(),
    ];
    for token in &tokens {
        runtime.notify_object(*token);
        runtime.notify_object(*token);
    }
    assert_eq!(runtime.observer.ready.len(), 3);
    assert_eq!(runtime.waits.deadlines.len(), 3);
    assert_eq!(runtime.next_wake(0).unwrap().key, 1);
    assert_eq!(runtime.next_wake(0).unwrap().key, 2);
    assert_eq!(runtime.next_wake(0).unwrap().key, 3);
    assert_eq!(runtime.observer.ready.len(), 0);
    assert_eq!(runtime.waits.deadlines.len(), 0);
}
