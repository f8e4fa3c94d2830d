use vstd::prelude::*;

use crate::notifier_event::NotifierEventType;
use crate::pipeline::{step_decision, step_label, BookingView, DecisionView, StepView};
use crate::run::{abort_message, pipeline_outcome, run_from};

verus! {

/// `step` aborts the pipeline when validated on `event`.
pub open spec fn aborts(step: StepView, event: BookingView) -> bool {
    step_decision(step, event) matches Ok(DecisionView::Abort(_))
}

/// `step` decides to run when validated on `event`.
pub open spec fn runs(step: StepView, event: BookingView) -> bool {
    step_decision(step, event) == Ok::<DecisionView, Seq<char>>(DecisionView::Run)
}

/// No step from position `i` on aborts on `event`.
pub open spec fn none_abort_from(steps: Seq<StepView>, i: int, event: BookingView) -> bool {
    forall|k: int| i <= k < steps.len() ==> !aborts(#[trigger] steps[k], event)
}

/// No step from position `i` up to and including position `k` aborts on `event`.
pub open spec fn none_abort_between(steps: Seq<StepView>, i: int, k: int, event: BookingView) -> bool {
    forall|m: int| i <= m <= k ==> !aborts(#[trigger] steps[m], event)
}

/// Every step from position `i` on runs on `event`.
pub open spec fn all_run_from(steps: Seq<StepView>, i: int, event: BookingView) -> bool {
    forall|k: int| i <= k < steps.len() ==> runs(#[trigger] steps[k], event)
}

proof fn lemma_run_from(steps: Seq<StepView>, i: nat, event: BookingView)
    requires
        i <= steps.len(),
    ensures
        ({
            let o = run_from(steps, i, event);
            &&& o.notices.len() > 0
            &&& forall|j: int| 0 <= j < o.notices.len() ==> (#[trigger] o.notices[j]).booking_id == event.booking_id
            &&& (o.result is Ok) <==> none_abort_from(steps, i as int, event)
            &&& o.result is Ok ==> o.result == Ok::<BookingView, Seq<char>>(event)
            &&& forall|k: int| #[trigger] o.executed.contains(k) ==> i <= k < steps.len() && runs(steps[k], event)
            &&& forall|k: int| #[trigger] o.executed.contains(k) ==> none_abort_between(steps, i as int, k, event)
            &&& forall|k: int|
                i <= k < steps.len() && none_abort_between(steps, i as int, k, event) && runs(
                    #[trigger] steps[k],
                    event,
                ) ==> o.executed.contains(k)
            &&& all_run_from(steps, i as int, event) ==> o.notices.len() == 2 * (steps.len() - i) + 1
            &&& (o.notices.last().event_type == NotifierEventType::OnPipelineEnd) <==> (o.result is Ok)
            &&& (o.result is Err) ==> o.notices.last().event_type == NotifierEventType::OnPipelineAbort
        }),
    decreases steps.len() - i,
{
    let o = run_from(steps, i, event);
    if i < steps.len() {
        lemma_run_from(steps, i + 1, event);
        let rest = run_from(steps, i + 1, event);
        let step = steps[i as int];
        match step_decision(step, event) {
            Ok(DecisionView::Abort(_)) => {
                assert(!none_abort_from(steps, i as int, event));
            },
            Ok(DecisionView::Skip) => {
                assert(o.notices.last() == rest.notices.last());
                assert(none_abort_from(steps, i as int, event) <==> none_abort_from(steps, (i + 1) as int, event));
                assert forall|j: int| 0 <= j < o.notices.len() implies (#[trigger] o.notices[j]).booking_id
                    == event.booking_id by {
                    if j > 0 {
                        assert(o.notices[j] == rest.notices[j - 1]);
                    }
                }
                assert forall|k: int| #[trigger] o.executed.contains(k) implies i <= k < steps.len()
                    && runs(steps[k], event) by {
                    assert(o.executed =~= rest.executed);
                }
                assert(o.executed =~= rest.executed);
                assert forall|k: int|
                    i <= k < steps.len() && none_abort_between(steps, i as int, k, event) && runs(
                        #[trigger] steps[k],
                        event,
                    ) implies o.executed.contains(k) by {
                    if k > i {
                        assert(none_abort_between(steps, (i + 1) as int, k, event));
                    }
                }
                assert forall|k: int| #[trigger] o.executed.contains(k) implies none_abort_between(
                    steps,
                    i as int,
                    k,
                    event,
                ) by {
                    assert(rest.executed.contains(k));
                    assert(none_abort_between(steps, (i + 1) as int, k, event));
                }
                assert(!all_run_from(steps, i as int, event)) by {
                    assert(!runs(steps[i as int], event));
                }
            },
            Ok(DecisionView::Run) => {
                assert(o.notices.last() == rest.notices.last());
                assert(none_abort_from(steps, i as int, event) <==> none_abort_from(steps, (i + 1) as int, event));
                assert forall|j: int| 0 <= j < o.notices.len() implies (#[trigger] o.notices[j]).booking_id
                    == event.booking_id by {
                    if j > 1 {
                        assert(o.notices[j] == rest.notices[j - 2]);
                    }
                }
                assert(o.executed =~= seq![i as int] + rest.executed);
                assert forall|k: int| #[trigger] o.executed.contains(k) implies i <= k < steps.len()
                    && runs(steps[k], event) by {
                    if k != i {
                        let j = choose|j: int| 0 <= j < o.executed.len() && o.executed[j] == k;
                        assert(j != 0);
                        assert(rest.executed[j - 1] == k);
                        assert(rest.executed.contains(k));
                    } else {
                        assert(runs(step, event));
                    }
                }
                assert forall|k: int| #[trigger] o.executed.contains(k) implies none_abort_between(
                    steps,
                    i as int,
                    k,
                    event,
                ) by {
                    if k != i {
                        let j = choose|j: int| 0 <= j < o.executed.len() && o.executed[j] == k;
                        assert(j != 0);
                        assert(rest.executed[j - 1] == k);
                        assert(rest.executed.contains(k));
                        assert(none_abort_between(steps, (i + 1) as int, k, event));
                    }
                }
                assert forall|k: int|
                    i <= k < steps.len() && none_abort_between(steps, i as int, k, event) && runs(
                        #[trigger] steps[k],
                        event,
                    ) implies o.executed.contains(k) by {
                    if k == i {
                        assert(o.executed[0] == k);
                    } else {
                        assert(none_abort_between(steps, (i + 1) as int, k, event));
                        let j = choose|j: int| 0 <= j < rest.executed.len() && rest.executed[j] == k;
                        assert(o.executed[j + 1] == k);
                    }
                }
                if all_run_from(steps, i as int, event) {
                    assert(all_run_from(steps, (i + 1) as int, event));
                }
            },
            Err(_) => {},
        }
    }
}

/// Every notification of a run concerns the booking the run was given, and a
/// run that succeeds hands back that event unchanged: no step alters it.
pub proof fn law_notices_name_the_booking(steps: Seq<StepView>, event: BookingView)
    ensures
        ({
            let o = pipeline_outcome(steps, event);
            &&& forall|j: int| 0 <= j < o.notices.len() ==> (#[trigger] o.notices[j]).booking_id == event.booking_id
            &&& o.result is Ok ==> o.result == Ok::<BookingView, Seq<char>>(event)
        }),
{
    lemma_run_from(steps, 0, event);
    let o = pipeline_outcome(steps, event);
    let rest = run_from(steps, 0, event);
    assert forall|j: int| 0 <= j < o.notices.len() implies (#[trigger] o.notices[j]).booking_id == event.booking_id by {
        if j > 0 {
            assert(o.notices[j] == rest.notices[j - 1]);
        }
    }
}

/// A run succeeds exactly when no step aborts; the first notification is
/// `OnPipelineStart`, and the last is `OnPipelineEnd` after a success and
/// `OnPipelineAbort` after an abort.
pub proof fn law_succeeds_unless_a_step_aborts(steps: Seq<StepView>, event: BookingView)
    ensures
        ({
            let o = pipeline_outcome(steps, event);
            &&& (o.result is Ok) <==> none_abort_from(steps, 0, event)
            &&& o.notices[0].event_type == NotifierEventType::OnPipelineStart
            &&& o.result is Ok ==> o.notices.last().event_type == NotifierEventType::OnPipelineEnd
            &&& o.result is Err ==> o.notices.last().event_type == NotifierEventType::OnPipelineAbort
        }),
{
    lemma_run_from(steps, 0, event);
    let o = pipeline_outcome(steps, event);
    let rest = run_from(steps, 0, event);
    assert(o.notices.last() == rest.notices.last());
}

/// Only steps that decide to run are executed, and every step that decides to
/// run is executed when no step up to it aborts: skipped steps never are, and
/// no step after an abort is.
pub proof fn law_executes_the_steps_that_run(steps: Seq<StepView>, event: BookingView)
    ensures
        ({
            let o = pipeline_outcome(steps, event);
            &&& forall|k: int| #[trigger] o.executed.contains(k) ==> 0 <= k < steps.len() && runs(steps[k], event)
            &&& forall|k: int| #[trigger] o.executed.contains(k) ==> none_abort_between(steps, 0, k, event)
            &&& forall|k: int|
                0 <= k < steps.len() && none_abort_between(steps, 0, k, event) && runs(
                    #[trigger] steps[k],
                    event,
                ) ==> o.executed.contains(k)
        }),
{
    lemma_run_from(steps, 0, event);
    let o = pipeline_outcome(steps, event);
    assert(o.executed =~= run_from(steps, 0, event).executed);
}

/// When every step runs, a run of `n` steps publishes `2n + 2` notifications:
/// the pipeline's start, each step's start and completion, and the pipeline's end.
pub proof fn law_notification_count_when_all_run(steps: Seq<StepView>, event: BookingView)
    requires
        all_run_from(steps, 0, event),
    ensures
        pipeline_outcome(steps, event).notices.len() == 2 * steps.len() + 2,
{
    lemma_run_from(steps, 0, event);
}

/// How many notifications the steps from position `i` up to (not including)
/// position `k` publish when none of them aborts: two for a step that runs
/// (its start and its completion), one for a step that is skipped.
pub open spec fn notices_for_steps(steps: Seq<StepView>, i: int, k: int, event: BookingView) -> int
    decreases k - i,
{
    if k <= i {
        0
    } else {
        notices_for_steps(steps, i + 1, k, event) + if runs(steps[i], event) {
            2int
        } else {
            1int
        }
    }
}

proof fn lemma_notices_of_step(steps: Seq<StepView>, i: nat, k: int, event: BookingView)
    requires
        i <= k < steps.len(),
        none_abort_between(steps, i as int, k - 1, event),
    ensures
        ({
            let o = run_from(steps, i, event);
            let at = notices_for_steps(steps, i as int, k, event);
            &&& 0 <= at < o.notices.len()
            &&& o.notices[at].step_name == Some(step_label(steps[k]))
            &&& runs(steps[k], event) ==> {
                &&& o.notices[at].event_type == NotifierEventType::OnStepStart
                &&& at + 1 < o.notices.len()
                &&& o.notices[at + 1].event_type == NotifierEventType::OnStepCompleted
                &&& o.notices[at + 1].step_name == Some(step_label(steps[k]))
            }
            &&& aborts(steps[k], event) ==> {
                &&& o.notices[at].event_type == NotifierEventType::OnPipelineAbort
                &&& o.notices.len() == at + 1
                &&& step_decision(steps[k], event) matches Ok(DecisionView::Abort(reason))
                    && o.result == Err::<BookingView, Seq<char>>(abort_message(reason))
            }
            &&& !runs(steps[k], event) && !aborts(steps[k], event) ==> o.notices[at].event_type
                == NotifierEventType::OnStepSkipped
        }),
    decreases k - i,
{
    if i < k {
        lemma_notices_of_step(steps, i + 1, k, event);
        let o = run_from(steps, i, event);
        let rest = run_from(steps, i + 1, event);
        let at = notices_for_steps(steps, i as int, k, event);
        let at1 = notices_for_steps(steps, (i + 1) as int, k, event);
        assert(!aborts(steps[i as int], event));
        if runs(steps[i as int], event) {
            assert(at == at1 + 2);
            assert(o.notices[at] == rest.notices[at1]);
            if at1 + 1 < rest.notices.len() {
                assert(o.notices[at + 1] == rest.notices[at1 + 1]);
            }
        } else {
            assert(at == at1 + 1);
            assert(o.notices[at] == rest.notices[at1]);
            if at1 + 1 < rest.notices.len() {
                assert(o.notices[at + 1] == rest.notices[at1 + 1]);
            }
        }
    } else {
        assert(notices_for_steps(steps, i as int, k, event) == 0);
    }
}

/// Every step-level notification names the step it is about. For each step
/// `k` that no earlier step's abort cuts off, the notification at position
/// `1 + notices_for_steps(steps, 0, k, event)` (after the pipeline's start and
/// the earlier steps' notifications) names step `k`: it is that step's start,
/// followed by its completion, when it runs; its skip when it is skipped; and
/// when it aborts, it is the run's last notification, the abort, and the run
/// ends with that step's abort message.
pub proof fn law_step_notices_name_their_step(steps: Seq<StepView>, event: BookingView, k: int)
    requires
        0 <= k < steps.len(),
        none_abort_between(steps, 0, k - 1, event),
    ensures
        ({
            let o = pipeline_outcome(steps, event);
            let at = 1 + notices_for_steps(steps, 0, k, event);
            &&& 0 < at < o.notices.len()
            &&& o.notices[at].step_name == Some(step_label(steps[k]))
            &&& runs(steps[k], event) ==> {
                &&& o.notices[at].event_type == NotifierEventType::OnStepStart
                &&& at + 1 < o.notices.len()
                &&& o.notices[at + 1].event_type == NotifierEventType::OnStepCompleted
                &&& o.notices[at + 1].step_name == Some(step_label(steps[k]))
            }
            &&& aborts(steps[k], event) ==> {
                &&& o.notices[at].event_type == NotifierEventType::OnPipelineAbort
                &&& o.notices.len() == at + 1
                &&& step_decision(steps[k], event) matches Ok(DecisionView::Abort(reason))
                    && o.result == Err::<BookingView, Seq<char>>(abort_message(reason))
            }
            &&& !runs(steps[k], event) && !aborts(steps[k], event) ==> o.notices[at].event_type
                == NotifierEventType::OnStepSkipped
        }),
{
    lemma_notices_of_step(steps, 0, k, event);
    let o = pipeline_outcome(steps, event);
    let rest = run_from(steps, 0, event);
    let at0 = notices_for_steps(steps, 0, k, event);
    assert(o.notices[1 + at0] == rest.notices[at0]);
    if at0 + 1 < rest.notices.len() {
        assert(o.notices[2 + at0] == rest.notices[at0 + 1]);
    }
}

} // verus!
