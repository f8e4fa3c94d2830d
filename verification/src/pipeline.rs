use std::sync::atomic::AtomicBool;
use std::sync::Arc;
use vstd::prelude::*;
use vstd::string::*;

use crate::notifier_event::is_plain_segment;

verus! {

// --------------------------
// Data Structures & Enums
// --------------------------

/// The booking event that travels through the pipeline.
#[derive(Debug, Clone)]
pub struct ServerSideBookingEvent {
    pub payment_id: Option<String>,
    pub booking_id: String,
    pub user_email: String,
}

/// The contents of a booking event.
pub struct BookingView {
    pub payment_id: Option<Seq<char>>,
    pub booking_id: Seq<char>,
    pub user_email: Seq<char>,
}

impl View for ServerSideBookingEvent {
    type V = BookingView;

    open spec fn view(&self) -> BookingView {
        BookingView {
            payment_id: match self.payment_id {
                Some(p) => Some(p@),
                None => None,
            },
            booking_id: self.booking_id@,
            user_email: self.user_email@,
        }
    }
}

/// What a step's validation decides.
#[derive(Debug, Clone, PartialEq)]
pub enum PipelineDecision {
    /// Execute the step.
    Run,
    /// Skip the step and go on with the next.
    Skip,
    /// Stop the pipeline with an error carrying the reason.
    Abort(String),
}

pub enum DecisionView {
    Run,
    Skip,
    Abort(Seq<char>),
}

impl View for PipelineDecision {
    type V = DecisionView;

    open spec fn view(&self) -> DecisionView {
        match self {
            PipelineDecision::Run => DecisionView::Run,
            PipelineDecision::Skip => DecisionView::Skip,
            PipelineDecision::Abort(reason) => DecisionView::Abort(reason@),
        }
    }
}

pub open spec fn decision_result_view(r: Result<PipelineDecision, String>) -> Result<
    DecisionView,
    Seq<char>,
> {
    match r {
        Ok(d) => Ok(d@),
        Err(e) => Err(e@),
    }
}

pub open spec fn event_result_view(r: Result<ServerSideBookingEvent, String>) -> Result<
    BookingView,
    Seq<char>,
> {
    match r {
        Ok(ev) => Ok(ev@),
        Err(e) => Err(e@),
    }
}

// --------------------------
// Traits
// --------------------------

/// Validation always takes &self.
pub trait PipelineValidator: Send + Sync {
    /// The decision this validator reaches on an event.
    spec fn decision_for(&self, event: BookingView) -> Result<DecisionView, Seq<char>>;

    fn validate(&self, event: &ServerSideBookingEvent) -> (r: Result<PipelineDecision, String>)
        ensures
            decision_result_view(r) == self.decision_for(event@),
    ;
}

/// Execution is stateless so it does not need &self.
pub trait PipelineExecutor: Send + Sync {
    /// What executing the step makes of an event.
    spec fn outcome_for(event: BookingView) -> Result<BookingView, Seq<char>>;

    fn execute(event: ServerSideBookingEvent) -> (r: Result<ServerSideBookingEvent, String>)
        ensures
            event_result_view(r) == Self::outcome_for(event@),
    ;
}

// --------------------------
// Decisions of the concrete steps
// --------------------------

/// Payment status is looked up only when the event carries a payment id.
pub open spec fn payment_status_decision(event: BookingView) -> DecisionView {
    if event.payment_id is Some {
        DecisionView::Run
    } else {
        DecisionView::Skip
    }
}

/// A booking call needs a booking id; without one the pipeline aborts.
pub open spec fn booking_call_decision(event: BookingView) -> DecisionView {
    if event.booking_id.len() == 0 {
        DecisionView::Abort("Missing booking_id"@)
    } else {
        DecisionView::Run
    }
}

/// An email notification needs an address; without one the pipeline aborts.
pub open spec fn send_email_decision(event: BookingView) -> DecisionView {
    if event.user_email.len() == 0 {
        DecisionView::Abort("Missing user email"@)
    } else {
        DecisionView::Run
    }
}

// --------------------------
// Concrete Steps
// --------------------------

#[derive(Debug, Clone)]
pub struct GetPaymentStatusFromPaymentProvider;

impl PipelineValidator for GetPaymentStatusFromPaymentProvider {
    open spec fn decision_for(&self, event: BookingView) -> Result<DecisionView, Seq<char>> {
        Ok(payment_status_decision(event))
    }

    fn validate(&self, event: &ServerSideBookingEvent) -> (r: Result<PipelineDecision, String>) {
        if event.payment_id.is_some() {
            Ok(PipelineDecision::Run)
        } else {
            Ok(PipelineDecision::Skip)
        }
    }
}

impl PipelineExecutor for GetPaymentStatusFromPaymentProvider {
    open spec fn outcome_for(event: BookingView) -> Result<BookingView, Seq<char>> {
        Ok(event)
    }

    fn execute(event: ServerSideBookingEvent) -> (r: Result<ServerSideBookingEvent, String>) {
        Ok(event)
    }
}

#[derive(Debug, Clone)]
pub struct CreateBookingCallForTravelProvider;

impl PipelineValidator for CreateBookingCallForTravelProvider {
    open spec fn decision_for(&self, event: BookingView) -> Result<DecisionView, Seq<char>> {
        Ok(booking_call_decision(event))
    }

    fn validate(&self, event: &ServerSideBookingEvent) -> (r: Result<PipelineDecision, String>) {
        if event.booking_id.as_str().is_empty() {
            Ok(PipelineDecision::Abort(String::from_str("Missing booking_id")))
        } else {
            Ok(PipelineDecision::Run)
        }
    }
}

impl PipelineExecutor for CreateBookingCallForTravelProvider {
    open spec fn outcome_for(event: BookingView) -> Result<BookingView, Seq<char>> {
        Ok(event)
    }

    fn execute(event: ServerSideBookingEvent) -> (r: Result<ServerSideBookingEvent, String>) {
        Ok(event)
    }
}

#[derive(Debug, Clone)]
pub struct SendEmailNotification;

impl PipelineValidator for SendEmailNotification {
    open spec fn decision_for(&self, event: BookingView) -> Result<DecisionView, Seq<char>> {
        Ok(send_email_decision(event))
    }

    fn validate(&self, event: &ServerSideBookingEvent) -> (r: Result<PipelineDecision, String>) {
        if event.user_email.as_str().is_empty() {
            Ok(PipelineDecision::Abort(String::from_str("Missing user email")))
        } else {
            Ok(PipelineDecision::Run)
        }
    }
}

impl PipelineExecutor for SendEmailNotification {
    open spec fn outcome_for(event: BookingView) -> Result<BookingView, Seq<char>> {
        Ok(event)
    }

    fn execute(event: ServerSideBookingEvent) -> (r: Result<ServerSideBookingEvent, String>) {
        Ok(event)
    }
}

// --------------------------
// Mock Step for Testing
// --------------------------

/// A step that decides as it is told and records, in `executed`, that the
/// pipeline executed it.
#[derive(Debug, Clone)]
pub struct MockStep {
    pub decision: PipelineDecision,
    pub executed: Arc<AtomicBool>,
}

impl PipelineValidator for MockStep {
    open spec fn decision_for(&self, event: BookingView) -> Result<DecisionView, Seq<char>> {
        Ok(self.decision@)
    }

    fn validate(&self, _event: &ServerSideBookingEvent) -> (r: Result<PipelineDecision, String>) {
        match &self.decision {
            PipelineDecision::Run => Ok(PipelineDecision::Run),
            PipelineDecision::Skip => Ok(PipelineDecision::Skip),
            PipelineDecision::Abort(reason) => Ok(PipelineDecision::Abort(reason.clone())),
        }
    }
}

// --------------------------
// PipelineStep Enum Wrapper
// --------------------------

/// The steps a pipeline is made of.
#[derive(Debug, Clone)]
pub enum PipelineStep {
    PaymentStatus(GetPaymentStatusFromPaymentProvider),
    BookingCall(CreateBookingCallForTravelProvider),
    SendEmail(SendEmailNotification),
    Mock(MockStep),
}

/// What a step is, as far as the pipeline's decisions go.
pub enum StepView {
    PaymentStatus,
    BookingCall,
    SendEmail,
    Mock(DecisionView),
}

impl View for PipelineStep {
    type V = StepView;

    open spec fn view(&self) -> StepView {
        match self {
            PipelineStep::PaymentStatus(_) => StepView::PaymentStatus,
            PipelineStep::BookingCall(_) => StepView::BookingCall,
            PipelineStep::SendEmail(_) => StepView::SendEmail,
            PipelineStep::Mock(m) => StepView::Mock(m.decision@),
        }
    }
}

pub open spec fn step_views(steps: Seq<PipelineStep>) -> Seq<StepView> {
    steps.map_values(|s: PipelineStep| s@)
}

/// The decision a step reaches on an event.
pub open spec fn step_decision(step: StepView, event: BookingView) -> Result<DecisionView, Seq<char>> {
    match step {
        StepView::PaymentStatus => Ok(payment_status_decision(event)),
        StepView::BookingCall => Ok(booking_call_decision(event)),
        StepView::SendEmail => Ok(send_email_decision(event)),
        StepView::Mock(d) => Ok(d),
    }
}

/// What executing a step makes of an event: every step hands it on unchanged.
pub open spec fn step_outcome(step: StepView, event: BookingView) -> Result<BookingView, Seq<char>> {
    Ok(event)
}

/// The name under which a step appears in notifications.
pub open spec fn step_label(step: StepView) -> Seq<char> {
    match step {
        StepView::PaymentStatus => "GetPaymentStatusFromPaymentProvider"@,
        StepView::BookingCall => "CreateBookingCallForTravelProvider"@,
        StepView::SendEmail => "SendEmailNotification"@,
        StepView::Mock(_) => "MockStep"@,
    }
}

impl PipelineStep {
    /// The decision that the wrapped step's own validator reaches on `event`.
    pub open spec fn wrapped_decision(&self, event: BookingView) -> Result<DecisionView, Seq<char>> {
        match self {
            PipelineStep::PaymentStatus(step) => step.decision_for(event),
            PipelineStep::BookingCall(step) => step.decision_for(event),
            PipelineStep::SendEmail(step) => step.decision_for(event),
            PipelineStep::Mock(step) => step.decision_for(event),
        }
    }

    /// Delegates validation to the inner type.
    pub fn validate(&self, event: &ServerSideBookingEvent) -> (r: Result<PipelineDecision, String>)
        ensures
            decision_result_view(r) == step_decision(self@, event@),
            decision_result_view(r) == self.wrapped_decision(event@),
    {
        match self {
            PipelineStep::PaymentStatus(step) => step.validate(event),
            PipelineStep::BookingCall(step) => step.validate(event),
            PipelineStep::SendEmail(step) => step.validate(event),
            PipelineStep::Mock(step) => step.validate(event),
        }
    }

    /// For execution, we call the static execute function (ignoring any internal state)
    /// except for the Mock step, which records that execution was attempted.
    pub fn execute(&self, event: ServerSideBookingEvent) -> (r: Result<ServerSideBookingEvent, String>)
        ensures
            event_result_view(r) == step_outcome(self@, event@),
    {
        match self {
            PipelineStep::PaymentStatus(_) => GetPaymentStatusFromPaymentProvider::execute(event),
            PipelineStep::BookingCall(_) => CreateBookingCallForTravelProvider::execute(event),
            PipelineStep::SendEmail(_) => SendEmailNotification::execute(event),
            PipelineStep::Mock(step) => {
                step.executed.store(true, std::sync::atomic::Ordering::SeqCst);
                Ok(event)
            },
        }
    }

    /// The line a step prints when it is executed: none for the mock step.
    pub fn execution_note(&self, event: &ServerSideBookingEvent) -> (note: Option<String>)
        ensures
            note matches Some(n) ==> n@ == execution_note_text(self@, event@),
            note is None <==> self@ is Mock,
    {
        match self {
            PipelineStep::PaymentStatus(_) => Some(
                String::from_str("Executing GetPaymentStatusFromPaymentProvider"),
            ),
            PipelineStep::BookingCall(_) => Some(
                String::from_str("Executing CreateBookingCallForTravelProvider"),
            ),
            PipelineStep::SendEmail(_) => {
                let mut note = String::from_str("Executing SendEmailNotification to: ");
                note.append(event.user_email.as_str());
                Some(note)
            },
            PipelineStep::Mock(_) => None,
        }
    }
}

/// The text of the line that executing `step` on `event` prints.
pub open spec fn execution_note_text(step: StepView, event: BookingView) -> Seq<char> {
    match step {
        StepView::PaymentStatus => "Executing GetPaymentStatusFromPaymentProvider"@,
        StepView::BookingCall => "Executing CreateBookingCallForTravelProvider"@,
        StepView::SendEmail => "Executing SendEmailNotification to: "@ + event.user_email,
        StepView::Mock(_) => Seq::empty(),
    }
}

/// Validating a step decides exactly as the step it wraps does, and on every
/// event: payment status runs when there is a payment id and is skipped
/// otherwise; a booking call aborts with "Missing booking_id" when the booking
/// id is empty and runs otherwise; an email notification aborts with "Missing
/// user email" when the address is empty and runs otherwise; a mock step
/// decides what it was told. Validation never fails.
pub proof fn law_steps_validate_by_their_own_rule(step: PipelineStep, event: BookingView)
    ensures
        step_decision(step@, event) == step.wrapped_decision(event),
        step_decision(step@, event) is Ok,
        step@ is PaymentStatus ==> (step_decision(step@, event) == Ok::<DecisionView, Seq<char>>(
            DecisionView::Run,
        ) <==> event.payment_id is Some),
        step@ is PaymentStatus && event.payment_id is None ==> step_decision(step@, event) == Ok::<
            DecisionView,
            Seq<char>,
        >(DecisionView::Skip),
        step@ is BookingCall ==> (step_decision(step@, event) == Ok::<DecisionView, Seq<char>>(
            DecisionView::Run,
        ) <==> event.booking_id.len() > 0),
        step@ is BookingCall && event.booking_id.len() == 0 ==> step_decision(step@, event) == Ok::<
            DecisionView,
            Seq<char>,
        >(DecisionView::Abort("Missing booking_id"@)),
        step@ is SendEmail ==> (step_decision(step@, event) == Ok::<DecisionView, Seq<char>>(
            DecisionView::Run,
        ) <==> event.user_email.len() > 0),
        step@ is SendEmail && event.user_email.len() == 0 ==> step_decision(step@, event) == Ok::<
            DecisionView,
            Seq<char>,
        >(DecisionView::Abort("Missing user email"@)),
        step matches PipelineStep::Mock(m) ==> step_decision(step@, event) == Ok::<
            DecisionView,
            Seq<char>,
        >(m.decision@),
{
}

/// Two steps of the same kind: the same variant, whatever a mock step decides.
pub open spec fn same_kind(a: StepView, b: StepView) -> bool {
    match (a, b) {
        (StepView::PaymentStatus, StepView::PaymentStatus) => true,
        (StepView::BookingCall, StepView::BookingCall) => true,
        (StepView::SendEmail, StepView::SendEmail) => true,
        (StepView::Mock(_), StepView::Mock(_)) => true,
        _ => false,
    }
}

/// Each step's name is a plain topic segment, and two steps have the same name
/// exactly when they are of the same kind.
pub proof fn law_step_labels_are_distinct(a: StepView, b: StepView)
    ensures
        is_plain_segment(step_label(a)),
        step_label(a) == step_label(b) <==> same_kind(a, b),
{
    reveal_strlit("GetPaymentStatusFromPaymentProvider");
    reveal_strlit("CreateBookingCallForTravelProvider");
    reveal_strlit("SendEmailNotification");
    reveal_strlit("MockStep");
    if !same_kind(a, b) {
        assert(step_label(a).len() != step_label(b).len());
    }
}

/// A helper to name each pipeline step for logging/notifier events.
pub fn step_name(step: &PipelineStep) -> (name: String)
    ensures
        name@ == step_label(step@),
{
    match step {
        PipelineStep::PaymentStatus(_) => String::from_str("GetPaymentStatusFromPaymentProvider"),
        PipelineStep::BookingCall(_) => String::from_str("CreateBookingCallForTravelProvider"),
        PipelineStep::SendEmail(_) => String::from_str("SendEmailNotification"),
        PipelineStep::Mock(_) => String::from_str("MockStep"),
    }
}

} // verus!
