use vstd::prelude::*;
use vstd::string::*;

use crate::event::pattern_matches;
use crate::uuidv7;

verus! {

/// A UTC instant as whole seconds since the Unix epoch and the nanoseconds
/// within that second: the plain values of a `chrono::DateTime<Utc>`.
#[derive(Debug, Clone, Copy, PartialEq, Eq, Structural)]
pub struct Timestamp {
    pub secs: i64,
    pub nanos: u32,
}

/// Reads the wall clock through `chrono::Utc::now` and splits the instant into
/// its Unix seconds and sub-second nanoseconds. Nothing is claimed of the
/// instant that comes back.
#[verifier::external_body]
pub(crate) fn current_time() -> Timestamp {
    let now = chrono::Utc::now();
    Timestamp { secs: now.timestamp(), nanos: now.timestamp_subsec_nanos() }
}

/// All possible notifier event types.
#[derive(Debug, Clone, Copy, PartialEq, Eq, Structural)]
pub enum NotifierEventType {
    OnStepStart,
    OnStepCompleted,
    OnStepSkipped,
    OnPipelineStart,
    OnPipelineEnd,
    OnPipelineAbort,
}

pub type Uuid = String;

/// A structured notifier event with metadata.
#[derive(Debug, Clone)]
pub struct NotifierEvent {
    pub event_id: Uuid,
    pub correlation_id: Uuid,
    pub timestamp: Timestamp,
    pub booking_id: String,
    /// `None` for pipeline-level events.
    pub step_name: Option<String>,
    pub event_type: NotifierEventType,
}

/// The label that a topic carries for each event type.
pub open spec fn event_type_label(t: NotifierEventType) -> Seq<char> {
    match t {
        NotifierEventType::OnStepStart => "on_step_start"@,
        NotifierEventType::OnStepCompleted => "on_step_completed"@,
        NotifierEventType::OnStepSkipped => "on_step_skipped"@,
        NotifierEventType::OnPipelineStart => "on_pipeline_start"@,
        NotifierEventType::OnPipelineEnd => "on_pipeline_end"@,
        NotifierEventType::OnPipelineAbort => "on_pipeline_abort"@,
    }
}

/// The step segment of a topic: the step's name, or `*` for pipeline-level events.
pub open spec fn step_segment(step_name: Option<Seq<char>>) -> Seq<char> {
    match step_name {
        Some(name) => name,
        None => "*"@,
    }
}

/// `booking:{booking_id}:step:{step}:{event_type}`.
pub open spec fn topic_of(
    booking_id: Seq<char>,
    step_name: Option<Seq<char>>,
    t: NotifierEventType,
) -> Seq<char> {
    "booking:"@ + booking_id + ":step:"@ + step_segment(step_name) + ":"@ + event_type_label(t)
}

pub open spec fn option_string_view(o: Option<String>) -> Option<Seq<char>> {
    match o {
        Some(s) => Some(s@),
        None => None,
    }
}

impl NotifierEvent {
    /// The topic this event is published under.
    pub open spec fn spec_topic(&self) -> Seq<char> {
        topic_of(self.booking_id@, option_string_view(self.step_name), self.event_type)
    }

    /// A step-start event for `step_name` of booking `booking_id`, tagged with
    /// `corr_id`; it gets a fresh event id and the current time.
    pub fn new_step_start(booking_id: String, step_name: String, corr_id: Uuid) -> (e: Self)
        ensures
            e.event_id@.len() == 36,
            uuidv7::is_uuid_v7_text(e.event_id@),
            e.correlation_id@ == corr_id@,
            e.booking_id@ == booking_id@,
            e.step_name == Some(step_name),
            e.event_type == NotifierEventType::OnStepStart,
    {
        Self {
            event_id: uuidv7::create(),
            correlation_id: corr_id,
            timestamp: current_time(),
            booking_id,
            step_name: Some(step_name),
            event_type: NotifierEventType::OnStepStart,
        }
    }

    /// Constructs the topic string: `booking:{booking_id}:step:{step_name}:{event_type}`,
    /// with `*` in place of the step name for pipeline-level events.
    pub fn topic(&self) -> (t: String)
        ensures
            t@ == self.spec_topic(),
    {
        let mut t = String::from_str("booking:");
        t.append(self.booking_id.as_str());
        t.append(":step:");
        match &self.step_name {
            Some(name) => t.append(name.as_str()),
            None => t.append("*"),
        }
        t.append(":");
        t.append(format_event_type(&self.event_type));
        t
    }
}

/// The pattern a subscriber uses to follow one booking: `booking:{booking_id}:*`.
pub open spec fn booking_pattern(booking_id: Seq<char>) -> Seq<char> {
    "booking:"@ + booking_id + ":*"@
}

/// The pattern `booking:*` selects the topic of every notifier event.
pub proof fn law_every_topic_is_a_booking_topic(
    booking_id: Seq<char>,
    step_name: Option<Seq<char>>,
    t: NotifierEventType,
)
    ensures
        pattern_matches("booking:*"@, topic_of(booking_id, step_name, t)),
{
    reveal_strlit("booking:*");
    reveal_strlit("booking:");
    let topic = topic_of(booking_id, step_name, t);
    assert("booking:*"@.drop_last() =~= "booking:"@);
    assert(topic.subrange(0, 8) =~= "booking:"@);
}

/// A subscriber to `booking:{b}:*` receives the events of booking `b`, and,
/// when booking ids hold no `:`, no event of any other booking.
pub proof fn law_booking_pattern_selects_its_booking(
    b: Seq<char>,
    other: Seq<char>,
    step_name: Option<Seq<char>>,
    t: NotifierEventType,
)
    ensures
        pattern_matches(booking_pattern(b), topic_of(b, step_name, t)),
        !b.contains(':') && !other.contains(':') && b != other ==> !pattern_matches(
            booking_pattern(b),
            topic_of(other, step_name, t),
        ),
{
    reveal_strlit("booking:");
    reveal_strlit(":*");
    reveal_strlit(":step:");
    let p = booking_pattern(b);
    let prefix = "booking:"@ + b + ":"@;
    reveal_strlit(":");
    assert(p.len() > 0 && p.last() == '*');
    assert(p.drop_last() =~= prefix);
    let own = topic_of(b, step_name, t);
    assert(own.subrange(0, prefix.len() as int) =~= prefix);
    if !b.contains(':') && !other.contains(':') && b != other {
        let topic = topic_of(other, step_name, t);
        if prefix.is_prefix_of(topic) {
            if b.len() < other.len() {
                assert(topic[8 + b.len() as int] == other[b.len() as int]);
                assert(prefix[8 + b.len() as int] == ':');
                assert(other.contains(':'));
            } else if b.len() > other.len() {
                assert(topic[8 + other.len() as int] == ':');
                assert(prefix[8 + other.len() as int] == b[other.len() as int]);
                assert(b.contains(':'));
            } else {
                assert forall|k: int| 0 <= k < b.len() implies b[k] == other[k] by {
                    assert(prefix[8 + k] == topic[8 + k]);
                }
                assert(b =~= other);
            }
        }
    }
}

/// A topic segment that is not empty and holds neither the separator `:` nor
/// the wildcard `*`.
pub open spec fn is_plain_segment(s: Seq<char>) -> bool {
    &&& s.len() > 0
    &&& !s.contains(':')
    &&& !s.contains('*')
}

/// The label of each event type is a plain topic segment, and distinct event
/// types have distinct labels: the last segment of a topic tells its event type.
pub proof fn law_event_type_labels_are_distinct(a: NotifierEventType, b: NotifierEventType)
    ensures
        is_plain_segment(event_type_label(a)),
        event_type_label(a) == event_type_label(b) <==> a == b,
{
    reveal_strlit("on_step_start");
    reveal_strlit("on_step_completed");
    reveal_strlit("on_step_skipped");
    reveal_strlit("on_pipeline_start");
    reveal_strlit("on_pipeline_end");
    reveal_strlit("on_pipeline_abort");
    let la = event_type_label(a);
    let lb = event_type_label(b);
    if a != b && la.len() == lb.len() {
        assert(la[3] != lb[3] || la[12] != lb[12]);
    }
}

fn format_event_type(event_type: &NotifierEventType) -> (label: &'static str)
    ensures
        label@ == event_type_label(*event_type),
{
    match event_type {
        NotifierEventType::OnStepStart => "on_step_start",
        NotifierEventType::OnStepCompleted => "on_step_completed",
        NotifierEventType::OnStepSkipped => "on_step_skipped",
        NotifierEventType::OnPipelineStart => "on_pipeline_start",
        NotifierEventType::OnPipelineEnd => "on_pipeline_end",
        NotifierEventType::OnPipelineAbort => "on_pipeline_abort",
    }
}

} // verus!
