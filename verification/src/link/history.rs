//! What holds of a link after any course of events.
use crate::link::{
    applied, asset_consistent, captured, captures_consistent, debugged, ends_consistent, fresh,
    ignored_consistent, noticed, received, LinkView,
};
use crate::wire::{CaptureDebugSnapshot, LiveKind, PinsWire, RpmEffectData};
use vstd::prelude::*;

verus! {

/// What happens to a link: a frame comes, or a form that a frame carried has been read.
pub enum Step {
    Frame { event: crate::events::EventView, now: u64 },
    Notify { id: u64, name: String, data: RpmEffectData, pins: Option<PinsWire>, now: u64 },
    Capture { line: crate::wire::CaptureView },
    CaptureDebug { row: CaptureDebugSnapshot },
}

/// A link after one step.
pub open spec fn stepped(s: LinkView, step: Step) -> LinkView {
    match step {
        Step::Frame { event, now } => applied(received(s, now), event),
        Step::Notify { id, name, data, pins, now } => noticed(s, id, name, data, pins, now),
        Step::Capture { line } => captured(s, line),
        Step::CaptureDebug { row } => debugged(s, row),
    }
}

/// A link after several steps.
pub open spec fn after(s: LinkView, steps: Seq<Step>) -> LinkView
    decreases steps.len(),
{
    if steps.len() == 0 {
        s
    } else {
        stepped(after(s, steps.drop_last()), steps.last())
    }
}

/// The captured lines have frame numbers.
pub open spec fn frames_count(steps: Seq<Step>) -> bool {
    forall|i: int|
        0 <= i < steps.len() ==> ((#[trigger] steps[i]) matches Step::Capture { line }
            ==> !line.frame.is_nan())
}

/// What the steps keep, full counters or not.
pub open spec fn is_sound(s: LinkView) -> bool {
    captures_consistent(s) && ignored_consistent(s) && ends_consistent(s) && asset_consistent(
        s.asset,
    )
}

proof fn lemma_step_sound(s: LinkView, step: Step)
    requires
        is_sound(s),
        step matches Step::Capture { line } ==> !line.frame.is_nan(),
    ensures
        is_sound(stepped(s, step)),
{
}

/// After any course of events since the start, every captured line stands under its motion,
/// belongs to the claimed run and occurs once, nothing ends twice, and the asset carrier serves
/// no more than what is staged and no generation ahead of the staged one, and is ready only with
/// all of the current one.
pub proof fn law_history_is_sound(steps: Seq<Step>)
    requires
        frames_count(steps),
    ensures
        is_sound(after(fresh(), steps)),
    decreases steps.len(),
{
    if steps.len() > 0 {
        let rest = steps.drop_last();
        assert forall|i: int| 0 <= i < rest.len() implies ((#[trigger] rest[i]) matches
            Step::Capture { line } ==> !line.frame.is_nan()) by {
            assert(rest[i] == steps[i]);
        }
        law_history_is_sound(rest);
        assert(steps[steps.len() - 1] == steps.last());
        lemma_step_sound(after(fresh(), rest), steps.last());
    }
}

/// No course of events takes the asset carrier back to an earlier generation.
pub proof fn law_generations_never_fall(s: LinkView, steps: Seq<Step>)
    ensures
        s.asset.generation <= after(s, steps).asset.generation,
    decreases steps.len(),
{
    if steps.len() > 0 {
        law_generations_never_fall(s, steps.drop_last());
    }
}

// ── Runs ─────────────────────────────────────────────────────────────────────

/// The run of the first line of a fighter kind and motion since the captures were last cleared.
pub open spec fn first_run(steps: Seq<Step>, key: (i32, u64)) -> Option<u32>
    decreases steps.len(),
{
    if steps.len() == 0 {
        None
    } else {
        let before = first_run(steps.drop_last(), key);
        match steps.last() {
            Step::Frame { event: crate::events::EventView::CapturesCleared, now } => None,
            Step::Capture { line } => if (line.kind, line.motion) == key && before is None {
                Some(line.run)
            } else {
                before
            },
            _ => before,
        }
    }
}

/// Only the first performance of a move is accepted: it claims the move, and every line that is
/// kept of a fighter kind and motion belongs to the first run that was seen since the start or
/// since the captures were last cleared.
pub proof fn law_first_run_claims(steps: Seq<Step>)
    requires
        frames_count(steps),
    ensures
        ({
            let s = after(fresh(), steps);
            &&& forall|key: (i32, u64)|
                #![trigger s.claimed.contains_key(key)]
                #![trigger first_run(steps, key)]
                first_run(steps, key) == (if s.claimed.contains_key(key) {
                    Some(s.claimed[key])
                } else {
                    None
                })
            &&& forall|m: u64, i: int|
                s.captures.contains_key(m) && 0 <= i < s.captures[m].len() ==> first_run(
                    steps,
                    ((#[trigger] s.captures[m][i]).kind, m),
                ) == Some(s.captures[m][i].run)
        }),
    decreases steps.len(),
{
    lemma_claims(steps);
    law_history_is_sound(steps);
}

proof fn lemma_claims(steps: Seq<Step>)
    ensures
        after(fresh(), steps).ignored == Set::<i32>::empty(),
        forall|key: (i32, u64)|
            #![trigger after(fresh(), steps).claimed.contains_key(key)]
            #![trigger first_run(steps, key)]
            first_run(steps, key) == (if after(fresh(), steps).claimed.contains_key(key) {
                Some(after(fresh(), steps).claimed[key])
            } else {
                None
            }),
    decreases steps.len(),
{
    if steps.len() > 0 {
        let rest = steps.drop_last();
        lemma_claims(rest);
        let s = after(fresh(), rest);
        let t = after(fresh(), steps);
        assert forall|key: (i32, u64)| first_run(steps, key) == (if t.claimed.contains_key(key) {
            Some(t.claimed[key])
        } else {
            None
        }) by {
            assert(first_run(rest, key) == (if s.claimed.contains_key(key) {
                Some(s.claimed[key])
            } else {
                None
            }));
        }
    }
}

// ── Reports on effect kinds ──────────────────────────────────────────────────

/// A report on an effect kind.
pub struct Report {
    pub name: String,
    pub data: RpmEffectData,
    pub pins: Option<PinsWire>,
    pub now: u64,
}

/// The reports on an effect kind, in order.
pub open spec fn reports_on(steps: Seq<Step>, id: u64) -> Seq<Report>
    decreases steps.len(),
{
    if steps.len() == 0 {
        Seq::empty()
    } else {
        let before = reports_on(steps.drop_last(), id);
        match steps.last() {
            Step::Notify { id: other, name, data, pins, now } => if other == id {
                before.push(Report { name, data, pins, now })
            } else {
                before
            },
            _ => before,
        }
    }
}

/// The step takes the effect kind away.
pub open spec fn removes(step: Step, id: u64) -> bool {
    match step {
        Step::Frame { event: crate::events::EventView::Remove { id: gone }, now } => gone == id,
        Step::Frame { event: crate::events::EventView::RemoveAll, now } => true,
        _ => false,
    }
}

/// A kind that was absent and is not taken away: after `n` reports on it, its first values are
/// those of the first one, everything else is that of the last one, and `n` updates are counted.
/// Without a report it stays absent.
pub proof fn law_reports_are_counted(s: LinkView, steps: Seq<Step>, id: u64)
    requires
        !s.kinds.contains_key(id),
        forall|i: int| 0 <= i < steps.len() ==> !removes(#[trigger] steps[i], id),
        reports_on(steps, id).len() <= u64::MAX,
    ensures
        ({
            let reports = reports_on(steps, id);
            let kinds = after(s, steps).kinds;
            if reports.len() == 0 {
                !kinds.contains_key(id)
            } else {
                let last = reports.last();
                kinds.contains_key(id) && kinds[id] == LiveKind {
                    name: last.name,
                    data: last.data,
                    first: reports[0].data,
                    pins: last.pins,
                    updates: reports.len() as u64,
                    last_update: last.now,
                }
            }
        }),
    decreases steps.len(),
{
    if steps.len() > 0 {
        let rest = steps.drop_last();
        assert forall|i: int| 0 <= i < rest.len() implies !removes(#[trigger] rest[i], id) by {
            assert(rest[i] == steps[i]);
        }
        assert(!removes(steps[steps.len() - 1], id));
        law_reports_are_counted(s, rest, id);
    }
}

/// A report on one effect kind changes no other.
pub proof fn law_reports_leave_other_kinds(
    s: LinkView,
    id: u64,
    name: String,
    data: RpmEffectData,
    pins: Option<PinsWire>,
    now: u64,
    other: u64,
)
    requires
        other != id,
    ensures
        ({
            let t = noticed(s, id, name, data, pins, now);
            &&& t.kinds.contains_key(other) == s.kinds.contains_key(other)
            &&& s.kinds.contains_key(other) ==> t.kinds[other] == s.kinds[other]
        }),
{
}

} // verus!
