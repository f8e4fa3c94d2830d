use vstd::prelude::*;
use vstd::string::*;

use crate::notifier_event::{
    current_time, option_string_view, NotifierEvent, NotifierEventType, Timestamp, Uuid,
};
use crate::pipeline::{
    event_result_view, execution_note_text, step_decision, step_label, step_name, step_outcome,
    step_views, BookingView, DecisionView, PipelineDecision, PipelineStep, ServerSideBookingEvent,
    StepView,
};
use crate::uuidv7;
use vstd::pervasive::unreached;

verus! {

/// A notification that a pipeline run asks to publish: what happened, to which
/// step (none for pipeline-level events) and for which booking.
#[derive(Debug, Clone)]
pub struct Notice {
    pub event_type: NotifierEventType,
    pub step_name: Option<String>,
    pub booking_id: String,
}

pub struct NoticeView {
    pub event_type: NotifierEventType,
    pub step_name: Option<Seq<char>>,
    pub booking_id: Seq<char>,
}

impl View for Notice {
    type V = NoticeView;

    open spec fn view(&self) -> NoticeView {
        NoticeView {
            event_type: self.event_type,
            step_name: option_string_view(self.step_name),
            booking_id: self.booking_id@,
        }
    }
}

pub open spec fn notice_views(notices: Seq<Notice>) -> Seq<NoticeView> {
    notices.map_values(|n: Notice| n@)
}

pub open spec fn notice(
    event_type: NotifierEventType,
    step_name: Option<Seq<char>>,
    booking_id: Seq<char>,
) -> NoticeView {
    NoticeView { event_type, step_name, booking_id }
}

impl Notice {
    /// The notifier event for this notice, with the given identifiers and time.
    pub fn stamp(self, event_id: Uuid, correlation_id: Uuid, timestamp: Timestamp) -> (e:
        NotifierEvent)
        ensures
            e.event_id == event_id,
            e.correlation_id == correlation_id,
            e.timestamp == timestamp,
            e.booking_id == self.booking_id,
            e.step_name == self.step_name,
            e.event_type == self.event_type,
    {
        NotifierEvent {
            event_id,
            correlation_id,
            timestamp,
            booking_id: self.booking_id,
            step_name: self.step_name,
            event_type: self.event_type,
        }
    }
}

/// What a whole run does: the notifications in the order they are published,
/// the positions of the steps that are executed, and the result.
pub struct Outcome {
    pub notices: Seq<NoticeView>,
    pub executed: Seq<int>,
    pub result: Result<BookingView, Seq<char>>,
}

/// `rest`, preceded by some notifications and executions.
pub open spec fn preceded_by(notices: Seq<NoticeView>, executed: Seq<int>, rest: Outcome) -> Outcome {
    Outcome { notices: notices + rest.notices, executed: executed + rest.executed, result: rest.result }
}

/// The error with which an aborted pipeline ends.
pub open spec fn abort_message(reason: Seq<char>) -> Seq<char> {
    "Pipeline aborted: "@ + reason
}

/// What the steps from position `i` on do to `event`, up to the end of the run.
/// Each step is validated on the current event: an error ends the run; `Abort`
/// publishes `OnPipelineAbort` and ends it with the abort message; `Skip`
/// publishes `OnStepSkipped`; `Run` publishes `OnStepStart`, executes the step
/// (an error ends the run) and publishes `OnStepCompleted`. After the last
/// step, `OnPipelineEnd` is published and the run ends with the current event.
pub open spec fn run_from(steps: Seq<StepView>, i: nat, event: BookingView) -> Outcome
    decreases steps.len() - i,
{
    if i >= steps.len() {
        Outcome {
            notices: seq![notice(NotifierEventType::OnPipelineEnd, None, event.booking_id)],
            executed: seq![],
            result: Ok(event),
        }
    } else {
        let name = Some(step_label(steps[i as int]));
        match step_decision(steps[i as int], event) {
            Err(e) => Outcome { notices: seq![], executed: seq![], result: Err(e) },
            Ok(DecisionView::Abort(reason)) => Outcome {
                notices: seq![notice(NotifierEventType::OnPipelineAbort, name, event.booking_id)],
                executed: seq![],
                result: Err(abort_message(reason)),
            },
            Ok(DecisionView::Skip) => preceded_by(
                seq![notice(NotifierEventType::OnStepSkipped, name, event.booking_id)],
                seq![],
                run_from(steps, i + 1, event),
            ),
            Ok(DecisionView::Run) => match step_outcome(steps[i as int], event) {
                Err(e) => Outcome {
                    notices: seq![notice(NotifierEventType::OnStepStart, name, event.booking_id)],
                    executed: seq![i as int],
                    result: Err(e),
                },
                Ok(next) => preceded_by(
                    seq![
                        notice(NotifierEventType::OnStepStart, name, event.booking_id),
                        notice(NotifierEventType::OnStepCompleted, name, next.booking_id),
                    ],
                    seq![i as int],
                    run_from(steps, i + 1, next),
                ),
            },
        }
    }
}

/// What processing `event` through `steps` does: `OnPipelineStart`, then the steps.
pub open spec fn pipeline_outcome(steps: Seq<StepView>, event: BookingView) -> Outcome {
    preceded_by(
        seq![notice(NotifierEventType::OnPipelineStart, None, event.booking_id)],
        seq![],
        run_from(steps, 0, event),
    )
}

/// What the caller of a run does next.
pub enum PipelineAction {
    /// Publish this notification, then advance the run again.
    Notify(Notice),
    /// The run is over, with this result.
    Finish(Result<ServerSideBookingEvent, String>),
}

#[derive(Clone, Copy, PartialEq, Eq, Structural)]
enum Stage {
    Begin,
    AtStep(usize),
    Running(usize),
    Aborting,
    Ending,
    Done,
}

/// One run of a pipeline over a list of steps, taken one notification at a time.
/// The caller publishes each notification that `advance` hands out (or ignores
/// it when there is no notifier) and advances again until the run finishes.
pub struct PipelineRun<'a> {
    steps: &'a [PipelineStep],
    correlation_id: Uuid,
    current: Option<ServerSideBookingEvent>,
    failure: Option<String>,
    stage: Stage,
    initial: Ghost<BookingView>,
    emitted: Ghost<Seq<NoticeView>>,
    executed: Ghost<Seq<int>>,
}

impl<'a> PipelineRun<'a> {
    pub closed spec fn step_list(&self) -> Seq<StepView> {
        step_views(self.steps@)
    }

    /// The event the run started with.
    pub closed spec fn initial_event(&self) -> BookingView {
        self.initial@
    }

    /// The identifier every notification of this run carries.
    pub closed spec fn correlation_id(&self) -> Seq<char> {
        self.correlation_id@
    }

    /// The notifications handed out so far, in order.
    pub closed spec fn emitted(&self) -> Seq<NoticeView> {
        self.emitted@
    }

    /// The positions of the steps executed so far, in order.
    pub closed spec fn executed_steps(&self) -> Seq<int> {
        self.executed@
    }

    pub closed spec fn is_finished(&self) -> bool {
        self.stage == Stage::Done
    }

    /// The position of the step that the next `advance` executes, if any.
    pub closed spec fn step_to_execute(&self) -> Option<int> {
        match self.stage {
            Stage::Running(i) => Some(i as int),
            _ => None,
        }
    }

    /// The event as the steps so far have left it, while the run lasts.
    pub closed spec fn current_event(&self) -> Option<BookingView> {
        match self.current {
            Some(e) => Some(e@),
            None => None,
        }
    }

    /// What the whole run does.
    pub open spec fn outcome(&self) -> Outcome {
        pipeline_outcome(self.step_list(), self.initial_event())
    }

    /// An upper bound on the number of `advance` calls left.
    pub closed spec fn measure(&self) -> nat {
        let n = self.steps@.len();
        match self.stage {
            Stage::Begin => 3 * n + 4,
            Stage::AtStep(i) => (3 * (n - i) + 2) as nat,
            Stage::Running(i) => (3 * (n - i) + 1) as nat,
            Stage::Aborting => 1,
            Stage::Ending => 1,
            Stage::Done => 0,
        }
    }

    /// The run's state agrees with `outcome()`: what was handed out so far,
    /// followed by what the remaining steps do, is the whole run.
    pub closed spec fn wf(&self) -> bool {
        let o = self.outcome();
        let steps = self.step_list();
        let n = self.steps@.len();
        match self.stage {
            Stage::Begin => {
                &&& self.emitted@ == Seq::<NoticeView>::empty()
                &&& self.executed@ == Seq::<int>::empty()
                &&& self.current_event() == Some(self.initial@)
            },
            Stage::AtStep(i) => {
                &&& i <= n
                &&& self.current is Some
                &&& {
                    let r = run_from(steps, i as nat, self.current->0@);
                    &&& self.emitted@ + r.notices == o.notices
                    &&& self.executed@ + r.executed == o.executed
                    &&& r.result == o.result
                }
            },
            Stage::Running(i) => {
                &&& i < n
                &&& self.current is Some
                &&& step_decision(steps[i as int], self.current->0@) == Ok::<
                    DecisionView,
                    Seq<char>,
                >(DecisionView::Run)
                &&& {
                    let r = run_from(steps, i as nat, self.current->0@);
                    &&& self.emitted@ + r.notices.drop_first() == o.notices
                    &&& self.executed@ + r.executed == o.executed
                    &&& r.result == o.result
                }
            },
            Stage::Aborting => {
                &&& self.emitted@ == o.notices
                &&& self.executed@ == o.executed
                &&& self.failure is Some
                &&& o.result == Err::<BookingView, Seq<char>>(self.failure->0@)
            },
            Stage::Ending => {
                &&& self.emitted@ == o.notices
                &&& self.executed@ == o.executed
                &&& self.current is Some
                &&& o.result == Ok::<BookingView, Seq<char>>(self.current->0@)
            },
            Stage::Done => {
                &&& self.emitted@ == o.notices
                &&& self.executed@ == o.executed
            },
        }
    }

    /// Starts a run of `steps` on `event`, tagged with `correlation_id`.
    pub fn start_with_correlation_id(
        event: ServerSideBookingEvent,
        steps: &'a [PipelineStep],
        correlation_id: Uuid,
    ) -> (run: Self)
        ensures
            run.wf(),
            !run.is_finished(),
            run.step_list() == step_views(steps@),
            run.initial_event() == event@,
            run.correlation_id() == correlation_id@,
            run.emitted() == Seq::<NoticeView>::empty(),
            run.executed_steps() == Seq::<int>::empty(),
    {
        let ghost initial = event@;
        PipelineRun {
            steps,
            correlation_id,
            current: Some(event),
            failure: None,
            stage: Stage::Begin,
            initial: Ghost(initial),
            emitted: Ghost(Seq::empty()),
            executed: Ghost(Seq::empty()),
        }
    }

    /// Starts a run of `steps` on `event` under a freshly generated correlation id.
    pub fn start(event: ServerSideBookingEvent, steps: &'a [PipelineStep]) -> (run: Self)
        ensures
            run.wf(),
            run.correlation_id().len() == 36,
            uuidv7::is_uuid_v7_text(run.correlation_id()),
            !run.is_finished(),
            run.step_list() == step_views(steps@),
            run.initial_event() == event@,
            run.emitted() == Seq::<NoticeView>::empty(),
            run.executed_steps() == Seq::<int>::empty(),
    {
        Self::start_with_correlation_id(event, steps, uuidv7::create())
    }

    /// The notifier event for `notice`: it carries this run's correlation id, a
    /// fresh event id and the current time.
    pub fn notifier_event(&self, notice: Notice) -> (e: NotifierEvent)
        ensures
            e.event_id@.len() == 36,
            uuidv7::is_uuid_v7_text(e.event_id@),
            e.correlation_id@ == self.correlation_id(),
            e.booking_id == notice.booking_id,
            e.step_name == notice.step_name,
            e.event_type == notice.event_type,
    {
        notice.stamp(uuidv7::create(), self.correlation_id.clone(), current_time())
    }

    /// The line that the step about to be executed prints, if it prints one.
    pub fn execution_note(&self) -> (note: Option<String>)
        requires
            self.wf(),
        ensures
            match self.step_to_execute() {
                Some(i) => match self.step_list()[i] {
                    StepView::Mock(_) => note is None,
                    step => note matches Some(text) && text@ == execution_note_text(
                        step,
                        self.current_event()->0,
                    ),
                },
                None => note is None,
            },
    {
        match self.stage {
            Stage::Running(i) => match &self.current {
                Some(event) => self.steps[i].execution_note(event),
                None => None,
            },
            _ => None,
        }
    }

    /// The booking id of the current event.
    fn current_booking_id(&self) -> (id: String)
        requires
            self.current is Some,
        ensures
            id@ == self.current->0.booking_id@,
    {
        match &self.current {
            Some(event) => event.booking_id.clone(),
            None => unreached(),
        }
    }

    /// Takes the run one step further: either hands out the next notification
    /// to publish or finishes the run with its result.
    pub fn advance(&mut self) -> (action: PipelineAction)
        requires
            old(self).wf(),
            !old(self).is_finished(),
        ensures
            final(self).wf(),
            final(self).step_list() == old(self).step_list(),
            final(self).initial_event() == old(self).initial_event(),
            final(self).correlation_id() == old(self).correlation_id(),
            final(self).measure() < old(self).measure(),
            match action {
                PipelineAction::Notify(n) => {
                    &&& !final(self).is_finished()
                    &&& final(self).emitted() == old(self).emitted().push(n@)
                },
                PipelineAction::Finish(r) => {
                    &&& final(self).is_finished()
                    &&& final(self).emitted() == old(self).emitted()
                    &&& old(self).emitted() == old(self).outcome().notices
                    &&& event_result_view(r) == old(self).outcome().result
                },
            },
    {
        let ghost o = self.outcome();
        let ghost steps = self.step_list();
        match self.stage {
            Stage::Begin => {
                let booking_id = self.current_booking_id();
                let n = Notice { event_type: NotifierEventType::OnPipelineStart, step_name: None, booking_id };
                self.stage = Stage::AtStep(0);
                self.emitted = Ghost(self.emitted@.push(n@));
                proof {
                    assert(self.emitted@ + run_from(steps, 0, self.current->0@).notices =~= o.notices);
                    assert(self.executed@ + run_from(steps, 0, self.current->0@).executed =~= o.executed);
                }
                PipelineAction::Notify(n)
            },
            Stage::AtStep(i) => {
                let ghost ev = self.current->0@;
                let ghost r = run_from(steps, i as nat, ev);
                if i == self.steps.len() {
                    let booking_id = self.current_booking_id();
                    let n = Notice { event_type: NotifierEventType::OnPipelineEnd, step_name: None, booking_id };
                    self.stage = Stage::Ending;
                    self.emitted = Ghost(self.emitted@.push(n@));
                    proof {
                        assert(self.emitted@ =~= o.notices);
                        assert(self.executed@ =~= o.executed);
                    }
                    PipelineAction::Notify(n)
                } else {
                    let step = &self.steps[i];
                    assert(steps[i as int] == step@);
                    let name = step_name(step);
                    let decision = match &self.current {
                        Some(event) => step.validate(event),
                        None => unreached(),
                    };
                    match decision {
                        Err(e) => {
                            self.stage = Stage::Done;
                            proof {
                                assert(self.emitted@ =~= o.notices);
                                assert(self.executed@ =~= o.executed);
                            }
                            PipelineAction::Finish(Err(e))
                        },
                        Ok(PipelineDecision::Abort(reason)) => {
                            let booking_id = self.current_booking_id();
                            let mut message = String::from_str("Pipeline aborted: ");
                            message.append(reason.as_str());
                            let n = Notice {
                                event_type: NotifierEventType::OnPipelineAbort,
                                step_name: Some(name),
                                booking_id,
                            };
                            self.failure = Some(message);
                            self.stage = Stage::Aborting;
                            self.emitted = Ghost(self.emitted@.push(n@));
                            proof {
                                assert(self.emitted@ =~= o.notices);
                                assert(self.executed@ =~= o.executed);
                            }
                            PipelineAction::Notify(n)
                        },
                        Ok(PipelineDecision::Skip) => {
                            let booking_id = self.current_booking_id();
                            let n = Notice {
                                event_type: NotifierEventType::OnStepSkipped,
                                step_name: Some(name),
                                booking_id,
                            };
                            self.stage = Stage::AtStep(i + 1);
                            self.emitted = Ghost(self.emitted@.push(n@));
                            proof {
                                let r2 = run_from(steps, (i + 1) as nat, ev);
                                assert(self.emitted@ + r2.notices =~= o.notices);
                                assert(self.executed@ + r2.executed =~= o.executed);
                            }
                            PipelineAction::Notify(n)
                        },
                        Ok(PipelineDecision::Run) => {
                            let booking_id = self.current_booking_id();
                            let n = Notice {
                                event_type: NotifierEventType::OnStepStart,
                                step_name: Some(name),
                                booking_id,
                            };
                            self.stage = Stage::Running(i);
                            self.emitted = Ghost(self.emitted@.push(n@));
                            proof {
                                assert(r.notices[0] == n@);
                                assert(self.emitted@ + r.notices.drop_first() =~= o.notices);
                            }
                            PipelineAction::Notify(n)
                        },
                    }
                }
            },
            Stage::Running(i) => {
                let ghost ev = self.current->0@;
                let ghost r = run_from(steps, i as nat, ev);
                let step = &self.steps[i];
                assert(steps[i as int] == step@);
                let event = self.current.take().unwrap();
                let result = step.execute(event);
                self.executed = Ghost(self.executed@.push(i as int));
                match result {
                    Err(e) => {
                        self.stage = Stage::Done;
                        proof {
                            assert(self.emitted@ =~= o.notices);
                            assert(self.executed@ =~= o.executed);
                        }
                        PipelineAction::Finish(Err(e))
                    },
                    Ok(next) => {
                        let name = step_name(step);
                        let booking_id = next.booking_id.clone();
                        let n = Notice {
                            event_type: NotifierEventType::OnStepCompleted,
                            step_name: Some(name),
                            booking_id,
                        };
                        let ghost next_view = next@;
                        self.current = Some(next);
                        self.stage = Stage::AtStep(i + 1);
                        self.emitted = Ghost(self.emitted@.push(n@));
                        proof {
                            let r2 = run_from(steps, (i + 1) as nat, next_view);
                            assert(self.emitted@ + r2.notices =~= o.notices);
                            assert(self.executed@ + r2.executed =~= o.executed);
                        }
                        PipelineAction::Notify(n)
                    },
                }
            },
            Stage::Aborting => {
                let message = self.failure.take().unwrap();
                self.stage = Stage::Done;
                PipelineAction::Finish(Err(message))
            },
            Stage::Ending => {
                let event = self.current.take().unwrap();
                self.stage = Stage::Done;
                PipelineAction::Finish(Ok(event))
            },
            Stage::Done => unreached(),
        }
    }

    /// The notifications handed out so far begin the run's notifications, the
    /// steps executed so far begin its executions, and a finished run has handed
    /// out and executed exactly those of `outcome()`.
    pub proof fn lemma_progress(&self)
        requires
            self.wf(),
        ensures
            self.emitted().is_prefix_of(self.outcome().notices),
            self.executed_steps().is_prefix_of(self.outcome().executed),
            self.is_finished() ==> {
                &&& self.emitted() == self.outcome().notices
                &&& self.executed_steps() == self.outcome().executed
            },
    {
        let o = self.outcome();
        let steps = self.step_list();
        match self.stage {
            Stage::AtStep(i) => {
                let r = run_from(steps, i as nat, self.current->0@);
                assert(self.emitted@ =~= o.notices.subrange(0, self.emitted@.len() as int));
                assert(self.executed@ =~= o.executed.subrange(0, self.executed@.len() as int));
            },
            Stage::Running(i) => {
                let r = run_from(steps, i as nat, self.current->0@);
                assert(self.emitted@ =~= o.notices.subrange(0, self.emitted@.len() as int));
                assert(self.executed@ =~= o.executed.subrange(0, self.executed@.len() as int));
            },
            Stage::Begin => {
                assert(self.emitted@ =~= o.notices.subrange(0, 0));
                assert(self.executed@ =~= o.executed.subrange(0, 0));
            },
            _ => {
                assert(self.emitted@ =~= o.notices.subrange(0, o.notices.len() as int));
                assert(self.executed@ =~= o.executed.subrange(0, o.executed.len() as int));
            },
        }
    }

    /// Drives the run to its end without publishing anything: returns the result
    /// and the notifications that were handed out on the way.
    pub fn run_to_completion(self) -> (r: (Result<ServerSideBookingEvent, String>, Vec<Notice>))
        requires
            self.wf(),
            !self.is_finished(),
        ensures
            self.emitted() + notice_views(r.1@) == self.outcome().notices,
            event_result_view(r.0) == self.outcome().result,
    {
        let mut run = self;
        let mut notices: Vec<Notice> = Vec::new();
        loop
            invariant
                run.wf(),
                !run.is_finished(),
                run.step_list() == self.step_list(),
                run.initial_event() == self.initial_event(),
                self.emitted() + notice_views(notices@) == run.emitted(),
            decreases run.measure(),
        {
            match run.advance() {
                PipelineAction::Notify(n) => {
                    let ghost before = notices@;
                    notices.push(n);
                    proof {
                        assert(notice_views(notices@) =~= notice_views(before).push(notices@.last()@));
                        assert(self.emitted() + notice_views(notices@) =~= run.emitted());
                    }
                },
                PipelineAction::Finish(result) => {
                    return (result, notices);
                },
            }
        }
    }
}

/// A run's notifications, executed steps and result depend on its steps and
/// its event alone: two runs of the same steps on the same event agree on all
/// three, whatever their correlation ids and whatever their callers do with
/// the notifications handed out (publish them or not).
pub proof fn law_outcome_depends_only_on_steps_and_event(a: &PipelineRun, b: &PipelineRun)
    requires
        a.step_list() == b.step_list(),
        a.initial_event() == b.initial_event(),
    ensures
        a.outcome() == b.outcome(),
{
}

} // verus!
