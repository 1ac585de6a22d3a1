use let_smi_core::correlation::correlate;
use let_smi_core::merge::MergedMetrics;
use let_smi_core::monitor::GpuMonitor;
use let_smi_core::providers::mock::MockProvider;
use let_smi_core::sampler::{
    answer_step, clamp_interval, next_action, send_error, watch_request, AnswerState, AnswerStep,
    NextGate, Plan, Registry, SamplerAction, SamplerEvent, Scheduler, SendFault, WatchOptions,
    COMMAND_QUEUE_CAPACITY,
};
use let_smi_core::slot::{LatestSlot, SlotPoll};
use let_smi_core::snapshot::{build_snapshot, GpuSnapshot};
use let_smi_core::{
    CapabilitySet, DeviceObservation, GpuError, GpuVendor, MetricKey, ProviderMetadata,
    ProviderSample,
};
use std::sync::mpsc::{self, TrySendError};

fn snapshot(sampled_at: u64) -> GpuSnapshot {
    let gpu = correlate(vec![DeviceObservation::new(
        "mock",
        "device",
        GpuVendor::Unknown,
        "GPU",
    )])
    .remove(0);
    build_snapshot(&gpu, &MergedMetrics::default(), sampled_at, None)
}

const MS: u64 = 1_000_000;

#[test]
fn watch_interval_is_bounded() {
    assert_eq!(clamp_interval(0), 50);
    assert_eq!(clamp_interval(u64::MAX), 60_000);
    assert_eq!(clamp_interval(1_000), 1_000);
}

#[test]
fn a_slow_consumer_receives_only_the_latest_snapshot() {
    let mut slot: LatestSlot<GpuSnapshot, u8> = LatestSlot::new();
    slot.publish(snapshot(1));
    slot.publish(snapshot(2));
    match slot.poll_next() {
        SlotPoll::Value(value) => assert_eq!(value.sampled_at, 2),
        _ => panic!("expected the latest coalesced snapshot"),
    }
    assert!(matches!(slot.poll_next(), SlotPoll::Pending));
}

#[test]
fn cancelling_a_subscription_wakes_a_pending_consumer() {
    let mut slot: LatestSlot<GpuSnapshot, u8> = LatestSlot::new();
    slot.publish(snapshot(1));
    assert!(matches!(slot.poll_next(), SlotPoll::Value(_)));
    assert!(matches!(slot.poll_next(), SlotPoll::Pending));
    slot.wait(7);
    assert_eq!(slot.close(), Some(7));
    assert!(matches!(slot.poll_next(), SlotPoll::Closed));
    assert!(slot.is_closed());
}

#[test]
fn a_failure_is_told_once() {
    let mut slot: LatestSlot<GpuSnapshot, u8> = LatestSlot::new();
    slot.fail("provider is gone".into());
    match slot.poll_next() {
        SlotPoll::Failed(words) => assert_eq!(words, "provider is gone"),
        _ => panic!("expected the failure"),
    }
    assert!(matches!(slot.poll_next(), SlotPoll::Pending));
}

#[test]
fn only_one_next_future_can_be_in_flight() {
    let mut gate = NextGate::new();
    gate.begin().unwrap();
    assert!(matches!(gate.begin(), Err(GpuError::InvalidArgument(_))));
    gate.finish();
    assert!(gate.begin().is_ok());
}

#[test]
fn cancelling_twice_is_cancelling_once() {
    let mut gate = NextGate::new();
    assert!(gate.cancel());
    assert!(!gate.cancel());
}

#[test]
fn nearby_listeners_share_a_native_poll() {
    let mut observation = DeviceObservation::new("mock", "zero", GpuVendor::Intel, "Mock GPU");
    observation.uuid = Some("mock-uuid".into());
    observation.capabilities = CapabilitySet::new(vec![MetricKey::UtilizationOverall]);
    let provider = MockProvider::new(
        ProviderMetadata::new("mock", 100, 100),
        vec![observation],
        vec![ProviderSample::default()],
    );
    let mut monitor = GpuMonitor::with_providers(vec![provider])
        .ok()
        .expect("a monitor");
    let gpu = monitor.gpus().unwrap()[0].identity.id.clone();
    let mut scheduler = Scheduler::new();
    scheduler.subscribe(1, gpu.clone(), WatchOptions::default(), 0);
    scheduler.subscribe(2, gpu.clone(), WatchOptions::default(), 0);
    let mut slots: Vec<LatestSlot<GpuSnapshot, u8>> = vec![LatestSlot::new(), LatestSlot::new()];
    let mut shared = Vec::new();
    let due = scheduler.due(0);
    assert_eq!(due, vec![1, 2]);
    for id in due {
        let taken = match scheduler.plan(id, 0) {
            Some(Plan::Sample {
                device_id,
                include_processes,
            }) => {
                assert_eq!(device_id, gpu);
                let request = watch_request(include_processes);
                let taken = monitor.sample_once(&device_id, &request).unwrap();
                scheduler.remember(id, &taken, 0);
                taken
            }
            Some(Plan::Reuse(taken)) => {
                shared.push(id);
                taken
            }
            None => panic!("both are subscribed"),
        };
        slots[id as usize - 1].publish(taken);
    }
    assert!(matches!(slots[0].poll_next(), SlotPoll::Value(_)));
    assert!(matches!(slots[1].poll_next(), SlotPoll::Value(_)));
    assert_eq!(monitor.providers()[0].sample_count(), 1);
    assert_eq!(shared, vec![2]);
    monitor.close();
}

#[test]
fn due_times_keep_their_rhythm() {
    let mut scheduler = Scheduler::new();
    scheduler.subscribe(
        1,
        "gpu".into(),
        WatchOptions {
            interval_ms: 100,
            include_processes: false,
        },
        0,
    );
    scheduler.advance(1, 30 * MS);
    assert!(scheduler.due(99 * MS).is_empty());
    assert_eq!(scheduler.due(100 * MS), vec![1]);
    scheduler.advance(1, 350 * MS);
    assert!(scheduler.due(399 * MS).is_empty());
    assert_eq!(scheduler.due(400 * MS), vec![1]);
    assert!(scheduler.unsubscribe(1));
    assert!(!scheduler.unsubscribe(1));
    assert!(scheduler.due(u64::MAX).is_empty());
}

#[test]
fn monitor_close_wakes_a_pending_subscription() {
    let mut registry = Registry::new();
    let first = registry.enroll(&Vec::new()).unwrap();
    let second = registry.enroll(&Vec::new()).unwrap();
    assert_ne!(first, second);
    let mut slots: Vec<(u64, LatestSlot<GpuSnapshot, u8>)> =
        vec![(first, LatestSlot::new()), (second, LatestSlot::new())];
    for (_, slot) in slots.iter_mut() {
        slot.publish(snapshot(1));
        assert!(matches!(slot.poll_next(), SlotPoll::Value(_)));
        assert!(matches!(slot.poll_next(), SlotPoll::Pending));
        slot.wait(7);
    }
    let ended = registry.stop();
    assert_eq!(ended, vec![first, second]);
    for (id, slot) in slots.iter_mut() {
        assert!(ended.contains(id));
        assert_eq!(slot.close(), Some(7));
        assert!(matches!(slot.poll_next(), SlotPoll::Closed));
    }
    assert!(registry.is_stopped());
    assert!(matches!(
        registry.enroll(&Vec::new()),
        Err(GpuError::MonitorClosed)
    ));
}

#[test]
fn subscriptions_are_bounded() {
    let mut registry = Registry::new();
    let mut count = 0;
    let refused = loop {
        match registry.enroll(&Vec::new()) {
            Ok(_) => count += 1,
            Err(error) => break error,
        }
    };
    assert_eq!(count, let_smi_core::sampler::MAX_SUBSCRIPTIONS);
    assert!(matches!(refused, GpuError::Backpressure(_)));
}

#[test]
fn command_channel_is_bounded() {
    let (sender, _receiver) = mpsc::sync_channel(COMMAND_QUEUE_CAPACITY);
    for value in 0..COMMAND_QUEUE_CAPACITY {
        sender.try_send(value).unwrap();
    }
    assert!(matches!(
        sender.try_send(COMMAND_QUEUE_CAPACITY),
        Err(TrySendError::Full(_))
    ));
    assert!(matches!(
        send_error(SendFault::Full),
        GpuError::Backpressure(_)
    ));
    assert!(matches!(
        send_error(SendFault::Disconnected),
        GpuError::MonitorClosed
    ));
}

#[test]
fn a_stopped_sampler_does_no_work() {
    assert!(matches!(
        next_action(SamplerEvent::Sample, true),
        SamplerAction::Stop { .. }
    ));
    assert!(matches!(
        next_action(SamplerEvent::Sample, false),
        SamplerAction::AnswerSample
    ));
    assert!(matches!(
        next_action(SamplerEvent::Subscribe { slot_closed: true }, false),
        SamplerAction::RefuseSubscription
    ));
    assert!(matches!(
        answer_step(AnswerState::NotYet, true),
        AnswerStep::Closed
    ));
    assert!(matches!(
        answer_step(AnswerState::NotYet, false),
        AnswerStep::WaitOn
    ));
    assert!(watch_request(true).include_processes);
}

#[test]
fn a_refused_subscription_leaves_no_trace() {
    let mut registry = Registry::new();
    let first = registry.enroll(&Vec::new()).unwrap();
    let refused = registry.enroll(&Vec::new()).unwrap();
    registry.release(refused);
    assert_eq!(registry.stop(), vec![first]);
}
