use std::sync::atomic::{AtomicBool, Ordering};
use std::sync::Arc;

use event_pipeline::notifier_event::NotifierEventType;
use event_pipeline::pipeline::{
    step_name, CreateBookingCallForTravelProvider, GetPaymentStatusFromPaymentProvider, MockStep,
    PipelineDecision, PipelineExecutor, PipelineStep, PipelineValidator, SendEmailNotification,
    ServerSideBookingEvent,
};
use event_pipeline::run::{Notice, PipelineAction, PipelineRun};

fn booking(payment: Option<&str>, booking_id: &str, email: &str) -> ServerSideBookingEvent {
    ServerSideBookingEvent {
        payment_id: payment.map(|p| p.to_string()),
        booking_id: booking_id.to_string(),
        user_email: email.to_string(),
    }
}

fn mock(decision: PipelineDecision) -> (PipelineStep, Arc<AtomicBool>) {
    let executed = Arc::new(AtomicBool::new(false));
    (PipelineStep::Mock(MockStep { decision, executed: executed.clone() }), executed)
}

fn kinds(notices: &[Notice]) -> Vec<NotifierEventType> {
    notices.iter().map(|n| n.event_type).collect()
}

#[test]
fn payment_status_runs_only_with_a_payment_id() {
    let step = GetPaymentStatusFromPaymentProvider;
    assert_eq!(step.validate(&booking(Some("pay_1"), "b", "e@x")), Ok(PipelineDecision::Run));
    assert_eq!(step.validate(&booking(None, "b", "e@x")), Ok(PipelineDecision::Skip));
}

#[test]
fn booking_call_aborts_without_a_booking_id() {
    let step = CreateBookingCallForTravelProvider;
    assert_eq!(
        step.validate(&booking(None, "", "e@x")),
        Ok(PipelineDecision::Abort("Missing booking_id".to_string()))
    );
    assert_eq!(step.validate(&booking(None, "book_1", "")), Ok(PipelineDecision::Run));
}

#[test]
fn send_email_aborts_without_an_address() {
    let step = SendEmailNotification;
    assert_eq!(
        step.validate(&booking(None, "book_1", "")),
        Ok(PipelineDecision::Abort("Missing user email".to_string()))
    );
    assert_eq!(step.validate(&booking(None, "", "a@b")), Ok(PipelineDecision::Run));
}

#[test]
fn executors_hand_the_event_back() {
    let e = SendEmailNotification::execute(booking(Some("p"), "book_9", "a@b")).unwrap();
    assert_eq!(e.booking_id, "book_9");
    assert_eq!(e.user_email, "a@b");
    assert_eq!(e.payment_id.as_deref(), Some("p"));
    let e = GetPaymentStatusFromPaymentProvider::execute(booking(None, "x", "y")).unwrap();
    assert_eq!(e.booking_id, "x");
    let e = CreateBookingCallForTravelProvider::execute(booking(None, "x", "y")).unwrap();
    assert_eq!(e.user_email, "y");
}

#[test]
fn mock_step_validates_to_its_decision_and_records_execution() {
    let (step, executed) = mock(PipelineDecision::Abort("no".to_string()));
    let ev = booking(None, "b", "e");
    assert_eq!(step.validate(&ev), Ok(PipelineDecision::Abort("no".to_string())));
    assert!(!executed.load(Ordering::SeqCst));
    let out = step.execute(ev).unwrap();
    assert_eq!(out.booking_id, "b");
    assert!(executed.load(Ordering::SeqCst));
}

#[test]
fn step_names() {
    assert_eq!(
        step_name(&PipelineStep::PaymentStatus(GetPaymentStatusFromPaymentProvider)),
        "GetPaymentStatusFromPaymentProvider"
    );
    assert_eq!(
        step_name(&PipelineStep::BookingCall(CreateBookingCallForTravelProvider)),
        "CreateBookingCallForTravelProvider"
    );
    assert_eq!(step_name(&PipelineStep::SendEmail(SendEmailNotification)), "SendEmailNotification");
    assert_eq!(step_name(&mock(PipelineDecision::Run).0), "MockStep");
}

#[test]
fn execution_notes() {
    let ev = booking(None, "b", "who@example.com");
    assert_eq!(
        PipelineStep::SendEmail(SendEmailNotification).execution_note(&ev).as_deref(),
        Some("Executing SendEmailNotification to: who@example.com")
    );
    assert_eq!(
        PipelineStep::PaymentStatus(GetPaymentStatusFromPaymentProvider).execution_note(&ev).as_deref(),
        Some("Executing GetPaymentStatusFromPaymentProvider")
    );
    assert_eq!(
        PipelineStep::BookingCall(CreateBookingCallForTravelProvider).execution_note(&ev).as_deref(),
        Some("Executing CreateBookingCallForTravelProvider")
    );
    assert_eq!(mock(PipelineDecision::Run).0.execution_note(&ev), None);
}

#[test]
fn two_running_steps_publish_six_notifications() {
    let steps = vec![
        PipelineStep::PaymentStatus(GetPaymentStatusFromPaymentProvider),
        PipelineStep::BookingCall(CreateBookingCallForTravelProvider),
    ];
    let ev = booking(Some("pay_123"), "book_456", "testuser@example.com");
    let run = PipelineRun::start_with_correlation_id(ev, &steps, "corr".to_string());
    let (result, notices) = run.run_to_completion();
    let out = result.unwrap();
    assert_eq!(out.booking_id, "book_456");
    assert_eq!(
        kinds(&notices),
        vec![
            NotifierEventType::OnPipelineStart,
            NotifierEventType::OnStepStart,
            NotifierEventType::OnStepCompleted,
            NotifierEventType::OnStepStart,
            NotifierEventType::OnStepCompleted,
            NotifierEventType::OnPipelineEnd,
        ]
    );
    assert_eq!(notices[0].step_name, None);
    assert_eq!(notices[1].step_name.as_deref(), Some("GetPaymentStatusFromPaymentProvider"));
    assert_eq!(notices[4].step_name.as_deref(), Some("CreateBookingCallForTravelProvider"));
    assert_eq!(notices[5].step_name, None);
    assert!(notices.iter().all(|n| n.booking_id == "book_456"));
}

#[test]
fn one_step_publishes_four_notifications() {
    let steps = vec![PipelineStep::PaymentStatus(GetPaymentStatusFromPaymentProvider)];
    let run = PipelineRun::start(booking(Some("pay_456"), "book_456", "user1@example.com"), &steps);
    let (result, notices) = run.run_to_completion();
    assert!(result.is_ok());
    assert_eq!(notices.len(), 4);
}

#[test]
fn empty_pipeline_starts_and_ends() {
    let steps: Vec<PipelineStep> = Vec::new();
    let run = PipelineRun::start(booking(None, "b0", "x"), &steps);
    let (result, notices) = run.run_to_completion();
    assert_eq!(result.unwrap().booking_id, "b0");
    assert_eq!(kinds(&notices), vec![NotifierEventType::OnPipelineStart, NotifierEventType::OnPipelineEnd]);
}

#[test]
fn skipped_payment_step_is_announced_and_not_run() {
    let steps = vec![
        PipelineStep::PaymentStatus(GetPaymentStatusFromPaymentProvider),
        PipelineStep::SendEmail(SendEmailNotification),
    ];
    let run = PipelineRun::start(booking(None, "b1", "a@b"), &steps);
    let (result, notices) = run.run_to_completion();
    assert!(result.is_ok());
    assert_eq!(
        kinds(&notices),
        vec![
            NotifierEventType::OnPipelineStart,
            NotifierEventType::OnStepSkipped,
            NotifierEventType::OnStepStart,
            NotifierEventType::OnStepCompleted,
            NotifierEventType::OnPipelineEnd,
        ]
    );
    assert_eq!(notices[1].step_name.as_deref(), Some("GetPaymentStatusFromPaymentProvider"));
}

#[test]
fn pipeline_with_skip_and_abort() {
    let (run_step, ran) = mock(PipelineDecision::Run);
    let (skip_step, skipped) = mock(PipelineDecision::Skip);
    let (abort_step, aborted) = mock(PipelineDecision::Abort("Booking ID contains 'fail'".to_string()));
    let (late_step, late) = mock(PipelineDecision::Run);
    let steps = vec![run_step, skip_step, abort_step, late_step];
    let run = PipelineRun::start(booking(Some("pay_fail"), "fail", "test@example.com"), &steps);
    let (result, notices) = run.run_to_completion();
    assert_eq!(result.unwrap_err(), "Pipeline aborted: Booking ID contains 'fail'");
    assert_eq!(
        kinds(&notices),
        vec![
            NotifierEventType::OnPipelineStart,
            NotifierEventType::OnStepStart,
            NotifierEventType::OnStepCompleted,
            NotifierEventType::OnStepSkipped,
            NotifierEventType::OnPipelineAbort,
        ]
    );
    assert_eq!(notices[4].step_name.as_deref(), Some("MockStep"));
    assert!(ran.load(Ordering::SeqCst));
    assert!(!skipped.load(Ordering::SeqCst));
    assert!(!aborted.load(Ordering::SeqCst));
    assert!(!late.load(Ordering::SeqCst));
}

#[test]
fn missing_booking_id_aborts_the_pipeline() {
    let steps = vec![
        PipelineStep::BookingCall(CreateBookingCallForTravelProvider),
        PipelineStep::SendEmail(SendEmailNotification),
    ];
    let run = PipelineRun::start(booking(Some("p"), "", "a@b"), &steps);
    let (result, notices) = run.run_to_completion();
    assert_eq!(result.unwrap_err(), "Pipeline aborted: Missing booking_id");
    assert_eq!(kinds(&notices), vec![NotifierEventType::OnPipelineStart, NotifierEventType::OnPipelineAbort]);
}

#[test]
fn consistent_correlation_id() {
    let steps = vec![
        PipelineStep::PaymentStatus(GetPaymentStatusFromPaymentProvider),
        PipelineStep::SendEmail(SendEmailNotification),
    ];
    let mut run = PipelineRun::start(booking(Some("p"), "book_c", "a@b"), &steps);
    let mut events = Vec::new();
    loop {
        match run.advance() {
            PipelineAction::Notify(n) => events.push(run.notifier_event(n)),
            PipelineAction::Finish(r) => {
                assert!(r.is_ok());
                break;
            }
        }
    }
    assert_eq!(events.len(), 6);
    let corr = events[0].correlation_id.clone();
    assert_eq!(corr.len(), 36);
    assert!(events.iter().all(|e| e.correlation_id == corr));
    for i in 0..events.len() {
        assert_eq!(events[i].event_id.len(), 36);
        assert!(events[i].timestamp.secs > 1_600_000_000);
        for j in 0..i {
            assert_ne!(events[i].event_id, events[j].event_id);
        }
    }
    assert_ne!(events[0].event_id, corr);
}

#[test]
fn execution_note_of_the_step_about_to_run() {
    let steps = vec![PipelineStep::SendEmail(SendEmailNotification)];
    let mut run = PipelineRun::start(booking(None, "b", "me@x"), &steps);
    assert_eq!(run.execution_note(), None);
    let mut notes = Vec::new();
    loop {
        match run.advance() {
            PipelineAction::Notify(n) => {
                if n.event_type == NotifierEventType::OnStepStart {
                    notes.push(run.execution_note());
                }
            }
            PipelineAction::Finish(_) => break,
        }
    }
    assert_eq!(notes, vec![Some("Executing SendEmailNotification to: me@x".to_string())]);
}

#[test]
fn fresh_identifiers_are_hyphenated_and_distinct() {
    let a = event_pipeline::uuidv7::create();
    let b = event_pipeline::uuidv7::create();
    assert_eq!(a.len(), 36);
    assert_eq!(a.matches('-').count(), 4);
    assert_ne!(a, b);
}
