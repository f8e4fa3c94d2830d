use event_pipeline::event::{topic_matches, Event};
use event_pipeline::notifier_event::{NotifierEvent, NotifierEventType, Timestamp};
use event_pipeline::pipeline::{
    CreateBookingCallForTravelProvider, GetPaymentStatusFromPaymentProvider, PipelineStep,
    ServerSideBookingEvent,
};
use event_pipeline::registry::{report_of, DeliveryFailure};
use event_pipeline::run::{PipelineAction, PipelineRun};
use event_pipeline::{flume_bus, tokio_bus};

fn booking(payment: &str, booking_id: &str, email: &str) -> ServerSideBookingEvent {
    ServerSideBookingEvent {
        payment_id: Some(payment.to_string()),
        booking_id: booking_id.to_string(),
        user_email: email.to_string(),
    }
}

fn publish_run(bus: &mut tokio_bus::EventBus<NotifierEvent>, event: ServerSideBookingEvent, steps: &[PipelineStep]) -> bool {
    let mut run = PipelineRun::start(event, steps);
    loop {
        match run.advance() {
            PipelineAction::Notify(n) => {
                let e = run.notifier_event(n);
                let topic = e.topic();
                bus.publish(Event { topic, payload: e });
            }
            PipelineAction::Finish(r) => return r.is_ok(),
        }
    }
}

fn sample_event(booking_id: &str, step: Option<&str>, t: NotifierEventType) -> NotifierEvent {
    NotifierEvent {
        event_id: "e".to_string(),
        correlation_id: "c".to_string(),
        timestamp: Timestamp { secs: 0, nanos: 0 },
        booking_id: booking_id.to_string(),
        step_name: step.map(|s| s.to_string()),
        event_type: t,
    }
}

#[test]
fn topic_format() {
    assert_eq!(
        sample_event("book_456", Some("GetPaymentStatusFromPaymentProvider"), NotifierEventType::OnStepStart).topic(),
        "booking:book_456:step:GetPaymentStatusFromPaymentProvider:on_step_start"
    );
    assert_eq!(
        sample_event("book_456", None, NotifierEventType::OnPipelineEnd).topic(),
        "booking:book_456:step:*:on_pipeline_end"
    );
    assert_eq!(sample_event("b", Some("S"), NotifierEventType::OnStepCompleted).topic(), "booking:b:step:S:on_step_completed");
    assert_eq!(sample_event("b", Some("S"), NotifierEventType::OnStepSkipped).topic(), "booking:b:step:S:on_step_skipped");
    assert_eq!(sample_event("b", None, NotifierEventType::OnPipelineStart).topic(), "booking:b:step:*:on_pipeline_start");
    assert_eq!(sample_event("b", Some("S"), NotifierEventType::OnPipelineAbort).topic(), "booking:b:step:S:on_pipeline_abort");
}

#[test]
fn new_step_start_fields() {
    let e = NotifierEvent::new_step_start("book_1".to_string(), "Step".to_string(), "corr".to_string());
    assert_eq!(e.booking_id, "book_1");
    assert_eq!(e.step_name.as_deref(), Some("Step"));
    assert_eq!(e.correlation_id, "corr");
    assert_eq!(e.event_type, NotifierEventType::OnStepStart);
    assert_eq!(e.event_id.len(), 36);
    assert!(e.timestamp.secs > 1_600_000_000);
}

#[test]
fn wildcard_matching() {
    assert!(topic_matches("booking:book_456:*", "booking:book_456:step:GetPaymentStatusFromPaymentProvider:on_step_start"));
    assert!(topic_matches("booking:book_456:*", "booking:book_456:step:CreateBookingCallForTravelProvider:on_step_completed"));
    assert!(topic_matches("booking:book_456:*", "booking:book_456:step:*:on_pipeline_end"));
    assert!(!topic_matches("booking:book_456:*", "booking:book_789:step:GetPaymentStatusFromPaymentProvider:on_step_start"));
    assert!(!topic_matches("booking:book_456:*", "order:book_456:step:GetPaymentStatusFromPaymentProvider:on_step_start"));
    assert!(topic_matches("booking:*", "booking:123"));
    assert!(topic_matches("*", ""));
    assert!(topic_matches("booking:123", "booking:123"));
    assert!(!topic_matches("booking:123", "booking:1234"));
    assert!(!topic_matches("booking:12", "booking:123"));
    assert!(!topic_matches("booking:123*", "booking:12"));
    assert!(topic_matches("", ""));
    assert!(!topic_matches("", "x"));
}

#[test]
fn test_multiple_subscribers() {
    let mut bus = tokio_bus::EventBus::<NotifierEvent>::new();
    let (id1, mut rx1) = bus.subscribe("booking:*".to_string());
    let (id2, mut rx2) = bus.subscribe("booking:*".to_string());
    assert_eq!((id1, id2), (1, 2));
    let steps = vec![
        PipelineStep::PaymentStatus(GetPaymentStatusFromPaymentProvider),
        PipelineStep::BookingCall(CreateBookingCallForTravelProvider),
    ];
    assert!(publish_run(&mut bus, booking("pay_123", "book_456", "testuser@example.com"), &steps));
    let mut types1 = Vec::new();
    let mut types2 = Vec::new();
    while let Ok(e) = rx1.receiver.try_recv() {
        types1.push(e.payload.event_type);
    }
    while let Ok(e) = rx2.receiver.try_recv() {
        types2.push(e.payload.event_type);
    }
    assert_eq!(types1.len(), 6);
    assert_eq!(types2.len(), 6);
    assert_eq!(types1, types2);
}

#[test]
fn test_topic_pattern_matching() {
    let mut bus = tokio_bus::EventBus::<NotifierEvent>::new();
    let (_s1, mut rx1) = bus.subscribe("booking:book_456:*".to_string());
    let (_s2, mut rx2) = bus.subscribe("booking:book_789:*".to_string());
    let step = vec![PipelineStep::PaymentStatus(GetPaymentStatusFromPaymentProvider)];
    assert!(publish_run(&mut bus, booking("pay_456", "book_456", "user1@example.com"), &step));
    assert!(publish_run(&mut bus, booking("pay_789", "book_789", "user2@example.com"), &step));
    let mut got1 = Vec::new();
    while let Ok(e) = rx1.receiver.try_recv() {
        got1.push(e.payload.booking_id);
    }
    let mut got2 = Vec::new();
    while let Ok(e) = rx2.receiver.try_recv() {
        got2.push(e.payload.booking_id);
    }
    assert_eq!(got1, vec!["book_456"; 4]);
    assert_eq!(got2, vec!["book_789"; 4]);
}

#[test]
fn publish_reports_matching_subscribers_only() {
    let mut bus = tokio_bus::EventBus::<String>::new();
    let (a, _ra) = bus.subscribe("booking:*".to_string());
    let (b, _rb) = bus.subscribe("order:*".to_string());
    let (c, _rc) = bus.subscribe("booking:123".to_string());
    let report = bus.publish(Event { topic: "booking:123".to_string(), payload: "Booking confirmed".to_string() });
    let mut got = report.delivered.clone();
    got.sort();
    assert_eq!(got, vec![a, c]);
    assert!(report.dropped.is_empty());
    assert!(!report.delivered.contains(&b));
}

#[test]
fn unsubscribe_stops_delivery() {
    let mut bus = tokio_bus::EventBus::<String>::new();
    let (id, mut rx) = bus.subscribe("booking:*".to_string());
    bus.unsubscribe(id);
    let report = bus.publish(Event { topic: "booking:1".to_string(), payload: "x".to_string() });
    assert!(report.delivered.is_empty() && report.dropped.is_empty());
    assert!(rx.receiver.try_recv().is_err());
    let (next, _rx2) = bus.subscribe("booking:*".to_string());
    assert_eq!(next, id + 1);
    bus.unsubscribe(12345);
}

#[test]
fn full_and_closed_channels_are_reported() {
    let mut bus = tokio_bus::EventBus::<u32>::new();
    let (full, _keep) = bus.subscribe("t".to_string());
    let (closed, rx_closed) = bus.subscribe("t".to_string());
    drop(rx_closed);
    for k in 0..tokio_bus::CHANNEL_CAPACITY {
        let r = bus.publish(Event { topic: "t".to_string(), payload: k as u32 });
        assert_eq!(r.delivered, vec![full]);
    }
    let r = bus.publish(Event { topic: "t".to_string(), payload: 0 });
    assert!(r.delivered.is_empty());
    let mut dropped = r.dropped.clone();
    dropped.sort_by_key(|d| d.0);
    assert_eq!(dropped, vec![(full, DeliveryFailure::Full), (closed, DeliveryFailure::Closed)]);
}

#[test]
fn flume_bus_delivers_and_reports() {
    let mut bus = flume_bus::EventBus::<String>::new();
    let (id, rx) = bus.subscribe("booking:*".to_string());
    assert_eq!(id, 1);
    let report = bus.publish(Event { topic: "booking:123".to_string(), payload: "Booking confirmed".to_string() });
    assert_eq!(report.delivered, vec![id]);
    let got = rx.receiver.try_recv().unwrap();
    assert_eq!(got.topic, "booking:123");
    assert_eq!(got.payload, "Booking confirmed");
    let miss = bus.publish(Event { topic: "order:1".to_string(), payload: "x".to_string() });
    assert!(miss.delivered.is_empty() && miss.dropped.is_empty());
    drop(rx);
    let closed = bus.publish(Event { topic: "booking:9".to_string(), payload: "y".to_string() });
    assert_eq!(closed.dropped, vec![(id, DeliveryFailure::Closed)]);
    bus.unsubscribe(id);
    let none = bus.publish(Event { topic: "booking:9".to_string(), payload: "z".to_string() });
    assert!(none.delivered.is_empty() && none.dropped.is_empty());
}

#[test]
fn flume_bus_full_channel() {
    let mut bus = flume_bus::EventBus::<u32>::new();
    let (id, _rx) = bus.subscribe("t".to_string());
    for k in 0..flume_bus::CHANNEL_CAPACITY {
        assert_eq!(bus.publish(Event { topic: "t".to_string(), payload: k as u32 }).delivered, vec![id]);
    }
    assert_eq!(
        bus.publish(Event { topic: "t".to_string(), payload: 0 }).dropped,
        vec![(id, DeliveryFailure::Full)]
    );
}

#[test]
fn report_of_sorts_answers_by_outcome() {
    let ids = vec![4, 7, 2, 9];
    let outcomes = vec![Ok(()), Err(DeliveryFailure::Full), Ok(()), Err(DeliveryFailure::Closed)];
    let r = report_of(&ids, &outcomes);
    assert_eq!(r.delivered, vec![4, 2]);
    assert_eq!(r.dropped, vec![(7, DeliveryFailure::Full), (9, DeliveryFailure::Closed)]);
    let empty = report_of(&Vec::new(), &Vec::new());
    assert!(empty.delivered.is_empty() && empty.dropped.is_empty());
}

#[test]
fn subscriber_ids_stay_distinct() {
    let mut bus = tokio_bus::EventBus::<String>::new();
    let mut seen = Vec::new();
    let mut keep = Vec::new();
    for round in 0..5 {
        let (a, ra) = bus.subscribe(format!("booking:{}:*", round));
        let (b, rb) = bus.subscribe("booking:*".to_string());
        bus.unsubscribe(a);
        seen.push(a);
        seen.push(b);
        keep.push(ra);
        keep.push(rb);
    }
    assert!(seen.iter().all(|&id| id >= 1));
    for i in 0..seen.len() {
        for j in 0..i {
            assert_ne!(seen[i], seen[j]);
        }
    }
    // Only the subscriptions that were kept still receive events.
    let report = bus.publish(Event { topic: "booking:0:x".to_string(), payload: "p".to_string() });
    let mut got = report.delivered.clone();
    got.sort();
    assert_eq!(got, vec![2, 4, 6, 8, 10]);
}

#[test]
fn labels_are_distinct_segments() {
    let types = [
        NotifierEventType::OnStepStart,
        NotifierEventType::OnStepCompleted,
        NotifierEventType::OnStepSkipped,
        NotifierEventType::OnPipelineStart,
        NotifierEventType::OnPipelineEnd,
        NotifierEventType::OnPipelineAbort,
    ];
    let labels: Vec<String> = types
        .iter()
        .map(|t| sample_event("b", Some("S"), *t).topic().rsplit(':').next().unwrap().to_string())
        .collect();
    for i in 0..labels.len() {
        assert!(!labels[i].is_empty() && !labels[i].contains('*'));
        for j in 0..i {
            assert_ne!(labels[i], labels[j]);
        }
    }
}

#[test]
fn inner_star_is_literal_and_lone_star_matches_all() {
    let mut bus = tokio_bus::EventBus::<String>::new();
    let (_a, mut ra) = bus.subscribe("booking:*:x".to_string());
    let (_b, mut rb) = bus.subscribe("booking".to_string());
    let (c, mut rc) = bus.subscribe("*".to_string());
    let report = bus.publish(Event { topic: "booking:1:x".to_string(), payload: "p".to_string() });
    assert_eq!(report.delivered, vec![c]);
    assert!(ra.receiver.try_recv().is_err());
    assert!(rb.receiver.try_recv().is_err());
    assert_eq!(rc.receiver.try_recv().unwrap().topic, "booking:1:x");
    assert_eq!(bus.pattern(c), Some("*"));
    assert_eq!(bus.pattern(99), None);
}

#[test]
fn other_bookings_and_prefixes_do_not_reach_a_booking_subscriber() {
    let mut bus = tokio_bus::EventBus::<String>::new();
    let (_id, mut rx) = bus.subscribe("booking:book_456:*".to_string());
    bus.publish(Event {
        topic: "booking:book_789:step:GetPaymentStatusFromPaymentProvider:on_step_start".to_string(),
        payload: "a".to_string(),
    });
    bus.publish(Event {
        topic: "order:book_456:step:GetPaymentStatusFromPaymentProvider:on_step_start".to_string(),
        payload: "b".to_string(),
    });
    assert!(rx.receiver.try_recv().is_err());
}
