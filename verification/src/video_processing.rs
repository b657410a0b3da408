//! Decisions of a camera's video thread about its frame processor.
//!
//! The operator picks at most one processing pipeline per camera. The video
//! thread receives the picks, hands the camera over from the old processor to
//! the new one, and runs the processor on each new frame until it asks to end.
//! Processors are identified by numbers.

use vstd::prelude::*;

verus! {

/// The pipeline a camera runs after the operator clicked the pipeline named
/// `clicked`: clicking the running pipeline turns it off, clicking another one
/// runs that one instead.
pub open spec fn spec_pipeline_after_click(current: Option<Seq<char>>, clicked: Seq<char>) -> Option<
    Seq<char>,
> {
    if current == Some(clicked) {
        None
    } else {
        Some(clicked)
    }
}

/// The pipeline a camera runs after a click on the pipeline `clicked`.
pub fn pipeline_after_click(current: Option<&String>, clicked: &String) -> (next: Option<String>)
    ensures
        (match next {
            Some(s) => Some(s@),
            None => None,
        }) == spec_pipeline_after_click(
            match current {
                Some(s) => Some(s@),
                None => None,
            },
            clicked@,
        ),
{
    match current {
        Some(name) => {
            if *name == *clicked {
                None
            } else {
                Some(clicked.clone())
            }
        },
        None => Some(clicked.clone()),
    }
}

/// What to do with the processors when picks arrive.
#[derive(Clone, Copy, Debug, PartialEq, Eq, Structural)]
pub struct HandOver {
    /// The processor to end.
    pub end: Option<u64>,
    /// The processor to begin.
    pub begin: Option<u64>,
    /// The processor that runs afterwards.
    pub active: Option<u64>,
}

/// The hand-over for the picks received since the last frame (`picks`, oldest
/// first; each is a processor or none): only the last pick counts. With a pick,
/// the running processor ends and the picked one begins and runs; without one,
/// nothing changes.
pub open spec fn spec_hand_over(active: Option<u64>, picks: Seq<Option<u64>>) -> HandOver {
    if picks.len() == 0 {
        HandOver { end: None, begin: None, active }
    } else {
        HandOver { end: active, begin: picks.last(), active: picks.last() }
    }
}

/// The hand-over for the picks received since the last frame.
pub fn hand_over(active: Option<u64>, picks: &Vec<Option<u64>>) -> (h: HandOver)
    ensures
        h == spec_hand_over(active, picks@),
{
    if picks.len() == 0 {
        HandOver { end: None, begin: None, active }
    } else {
        let last = picks[picks.len() - 1];
        HandOver { end: active, begin: last, active: last }
    }
}

/// What the video thread does with a frame.
#[derive(Clone, Copy, Debug, PartialEq, Eq, Structural)]
pub enum FrameAction {
    /// No new frame arrived.
    Skip,
    /// Show the frame as it is.
    Show,
    /// Show the frame as the active processor returns it.
    Process,
    /// The active processor asked to end: end it, drop it, show the frame as
    /// it is.
    EndProcessor,
}

/// The action for a frame, given whether a new frame arrived, whether a
/// processor runs, and whether it asked to end.
pub open spec fn spec_frame_action(new_frame: bool, has_processor: bool, should_end: bool) -> FrameAction {
    if !new_frame {
        FrameAction::Skip
    } else if !has_processor {
        FrameAction::Show
    } else if should_end {
        FrameAction::EndProcessor
    } else {
        FrameAction::Process
    }
}

/// The action for a frame, and the processor that runs afterwards.
pub fn frame_action(new_frame: bool, active: Option<u64>, should_end: bool) -> (r: (
    FrameAction,
    Option<u64>,
))
    ensures
        r.0 == spec_frame_action(new_frame, active is Some, should_end),
        r.1 == (if r.0 == FrameAction::EndProcessor {
            None
        } else {
            active
        }),
{
    if !new_frame {
        (FrameAction::Skip, active)
    } else {
        match active {
            None => (FrameAction::Show, None),
            Some(p) => {
                if should_end {
                    (FrameAction::EndProcessor, None)
                } else {
                    (FrameAction::Process, Some(p))
                }
            },
        }
    }
}

/// Every processor that begins is the one that runs next, and a processor is
/// ended only when it was the running one; a pick of none leaves no processor
/// running.
pub proof fn law_hand_over_consistent(active: Option<u64>, picks: Seq<Option<u64>>)
    ensures
        ({
            let h = spec_hand_over(active, picks);
            &&& h.begin is Some ==> h.active == h.begin
            &&& h.end is Some ==> h.end == active
            &&& (picks.len() > 0 && picks.last() is None) ==> h.active is None
        }),
{
}

/// Two clicks on the same pipeline leave it running exactly when it ran before
/// them, and turn off any other pipeline the camera ran.
pub proof fn law_double_click(current: Option<Seq<char>>, clicked: Seq<char>)
    ensures
        spec_pipeline_after_click(spec_pipeline_after_click(current, clicked), clicked) == (if current
            == Some(clicked) {
            current
        } else {
            None
        }),
{
}

// ---------------------------------------------------------------------------
// A whole run of the video thread
// ---------------------------------------------------------------------------

/// A call the video thread makes on a processor.
#[derive(Clone, Copy, Debug, PartialEq, Eq, Structural)]
pub enum ProcessorCall {
    Begin(u64),
    Process(u64),
    End(u64),
}

/// One iteration of the video thread: the picks received since the last one
/// (oldest first), whether a new frame arrived, and whether the processor that
/// runs after the hand-over asks to end.
pub struct ThreadStep {
    pub picks: Seq<Option<u64>>,
    pub new_frame: bool,
    pub should_end: bool,
}

/// The call `c` when `b` holds, nothing otherwise.
pub open spec fn call_if(b: bool, c: ProcessorCall) -> Seq<ProcessorCall> {
    if b {
        seq![c]
    } else {
        Seq::empty()
    }
}

/// The calls of one iteration, in order: the running processor ends and the
/// picked one begins (when a pick arrived), then the processor that runs
/// processes the frame or, when it asks to end, is ended.
pub open spec fn step_calls(active: Option<u64>, st: ThreadStep) -> Seq<ProcessorCall> {
    let h = spec_hand_over(active, st.picks);
    let act = spec_frame_action(st.new_frame, h.active is Some, st.should_end);
    call_if(h.end is Some, ProcessorCall::End(h.end.unwrap())) + call_if(
        h.begin is Some,
        ProcessorCall::Begin(h.begin.unwrap()),
    ) + call_if(act == FrameAction::Process, ProcessorCall::Process(h.active.unwrap())) + call_if(
        act == FrameAction::EndProcessor,
        ProcessorCall::End(h.active.unwrap()),
    )
}

/// The processor that runs after one iteration.
pub open spec fn step_active(active: Option<u64>, st: ThreadStep) -> Option<u64> {
    let h = spec_hand_over(active, st.picks);
    if spec_frame_action(st.new_frame, h.active is Some, st.should_end)
        == FrameAction::EndProcessor {
        None
    } else {
        h.active
    }
}

/// The processor that runs after a sequence of iterations, starting with none.
pub open spec fn run_active(steps: Seq<ThreadStep>) -> Option<u64>
    decreases steps.len(),
{
    if steps.len() == 0 {
        None
    } else {
        step_active(run_active(steps.drop_last()), steps.last())
    }
}

/// The calls made during a sequence of iterations, in order.
pub open spec fn run_calls(steps: Seq<ThreadStep>) -> Seq<ProcessorCall>
    decreases steps.len(),
{
    if steps.len() == 0 {
        Seq::empty()
    } else {
        run_calls(steps.drop_last()) + step_calls(run_active(steps.drop_last()), steps.last())
    }
}

/// All calls of a thread that ran the given iterations and then exited: on
/// exit the running processor is ended.
pub open spec fn thread_calls(steps: Seq<ThreadStep>) -> Seq<ProcessorCall> {
    let a = run_active(steps);
    run_calls(steps) + call_if(a is Some, ProcessorCall::End(a.unwrap()))
}

/// How often `c` occurs in `s`.
pub open spec fn count_of(s: Seq<ProcessorCall>, c: ProcessorCall) -> nat
    decreases s.len(),
{
    if s.len() == 0 {
        0
    } else {
        count_of(s.drop_last(), c) + if s.last() == c {
            1nat
        } else {
            0nat
        }
    }
}

/// The processors picked in a list of picks, in order.
pub open spec fn picked_in(picks: Seq<Option<u64>>) -> Seq<u64>
    decreases picks.len(),
{
    if picks.len() == 0 {
        Seq::empty()
    } else {
        match picks.last() {
            Some(p) => picked_in(picks.drop_last()).push(p),
            None => picked_in(picks.drop_last()),
        }
    }
}

/// Every processor picked during a run, in order.
pub open spec fn picked(steps: Seq<ThreadStep>) -> Seq<u64>
    decreases steps.len(),
{
    if steps.len() == 0 {
        Seq::empty()
    } else {
        picked(steps.drop_last()) + picked_in(steps.last().picks)
    }
}

/// Whether `p` became the running processor in some iteration: it was the last
/// pick of that iteration.
pub open spec fn became_current(steps: Seq<ThreadStep>, p: u64) -> bool {
    exists|i: int|
        0 <= i < steps.len() && #[trigger] steps[i].picks.len() > 0 && steps[i].picks.last()
            == Some(p)
}

proof fn lemma_count_concat(a: Seq<ProcessorCall>, b: Seq<ProcessorCall>, c: ProcessorCall)
    ensures
        count_of(a + b, c) == count_of(a, c) + count_of(b, c),
    decreases b.len(),
{
    if b.len() == 0 {
        assert(a + b =~= a);
    } else {
        lemma_count_concat(a, b.drop_last(), c);
        assert((a + b).drop_last() =~= a + b.drop_last());
    }
}

proof fn lemma_count_call_if(b: bool, x: ProcessorCall, c: ProcessorCall)
    ensures
        count_of(call_if(b, x), c) == if b && x == c {
            1nat
        } else {
            0nat
        },
{
    if b {
        let s = seq![x];
        assert(s.drop_last() =~= Seq::<ProcessorCall>::empty());
        assert(count_of(s.drop_last(), c) == 0);
        assert(s.last() == x);
    } else {
        assert(call_if(b, x).len() == 0);
    }
}

proof fn lemma_last_pick_picked(picks: Seq<Option<u64>>)
    requires
        picks.len() > 0,
        picks.last() is Some,
    ensures
        picked_in(picks).contains(picks.last().unwrap()),
{
    let l = picked_in(picks);
    assert(l[l.len() - 1] == picks.last().unwrap());
}

proof fn lemma_became_current_picked(steps: Seq<ThreadStep>, p: u64)
    requires
        became_current(steps, p),
    ensures
        picked(steps).contains(p),
    decreases steps.len(),
{
    let init = steps.drop_last();
    let i = choose|i: int|
        0 <= i < steps.len() && #[trigger] steps[i].picks.len() > 0 && steps[i].picks.last()
            == Some(p);
    if i < steps.len() - 1 {
        assert(init[i] == steps[i]);
        lemma_became_current_picked(init, p);
        let k = choose|k: int| 0 <= k < picked(init).len() && picked(init)[k] == p;
        assert(picked(steps)[k] == p);
    } else {
        lemma_last_pick_picked(steps.last().picks);
        let l = picked_in(steps.last().picks);
        let k = choose|k: int| 0 <= k < l.len() && l[k] == p;
        assert(picked(steps)[picked(init).len() + k] == p);
    }
}

proof fn lemma_active_picked(steps: Seq<ThreadStep>)
    ensures
        run_active(steps) matches Some(a) ==> picked(steps).contains(a),
    decreases steps.len(),
{
    if steps.len() > 0 {
        let init = steps.drop_last();
        let st = steps.last();
        lemma_active_picked(init);
        if let Some(a) = run_active(steps) {
            if st.picks.len() > 0 {
                lemma_last_pick_picked(st.picks);
                let l = picked_in(st.picks);
                let k = choose|k: int| 0 <= k < l.len() && l[k] == a;
                assert(picked(steps)[picked(init).len() + k] == a);
            } else {
                let k = choose|k: int| 0 <= k < picked(init).len() && picked(init)[k] == a;
                assert(picked(steps)[k] == a);
            }
        }
    }
}

proof fn lemma_run_counts(steps: Seq<ThreadStep>, p: u64)
    requires
        picked(steps).no_duplicates(),
    ensures
        count_of(run_calls(steps), ProcessorCall::Begin(p)) <= 1,
        count_of(run_calls(steps), ProcessorCall::Begin(p)) == count_of(
            run_calls(steps),
            ProcessorCall::End(p),
        ) + if run_active(steps) == Some(p) {
            1nat
        } else {
            0nat
        },
        count_of(run_calls(steps), ProcessorCall::Begin(p)) == 1 <==> became_current(steps, p),
    decreases steps.len(),
{
    let begin = ProcessorCall::Begin(p);
    let end = ProcessorCall::End(p);
    if steps.len() > 0 {
        let init = steps.drop_last();
        let st = steps.last();
        let a = run_active(init);
        let h = spec_hand_over(a, st.picks);
        let act = spec_frame_action(st.new_frame, h.active is Some, st.should_end);
        let new_part = picked_in(st.picks);
        assert(picked(steps) == picked(init) + new_part);
        assert(picked(init).no_duplicates()) by {
            assert forall|i: int, j: int|
                0 <= i < picked(init).len() && 0 <= j < picked(init).len() && i != j implies picked(
                init,
            )[i] != picked(init)[j] by {
                assert(picked(steps)[i] == picked(init)[i]);
                assert(picked(steps)[j] == picked(init)[j]);
            }
        }
        lemma_run_counts(init, p);
        lemma_active_picked(init);

        // The calls of the last iteration
        let c1 = call_if(h.end is Some, ProcessorCall::End(h.end.unwrap()));
        let c2 = call_if(h.begin is Some, ProcessorCall::Begin(h.begin.unwrap()));
        let c3 = call_if(act == FrameAction::Process, ProcessorCall::Process(h.active.unwrap()));
        let c4 = call_if(act == FrameAction::EndProcessor, ProcessorCall::End(h.active.unwrap()));
        assert(step_calls(a, st) == c1 + c2 + c3 + c4);
        assert(run_calls(steps) == run_calls(init) + step_calls(a, st));
        lemma_count_concat(run_calls(init), step_calls(a, st), begin);
        lemma_count_concat(run_calls(init), step_calls(a, st), end);
        lemma_count_concat(c1 + c2 + c3, c4, begin);
        lemma_count_concat(c1 + c2 + c3, c4, end);
        lemma_count_concat(c1 + c2, c3, begin);
        lemma_count_concat(c1 + c2, c3, end);
        lemma_count_concat(c1, c2, begin);
        lemma_count_concat(c1, c2, end);
        lemma_count_call_if(h.end is Some, ProcessorCall::End(h.end.unwrap()), begin);
        lemma_count_call_if(h.end is Some, ProcessorCall::End(h.end.unwrap()), end);
        lemma_count_call_if(h.begin is Some, ProcessorCall::Begin(h.begin.unwrap()), begin);
        lemma_count_call_if(h.begin is Some, ProcessorCall::Begin(h.begin.unwrap()), end);
        lemma_count_call_if(act == FrameAction::Process, ProcessorCall::Process(h.active.unwrap()), begin);
        lemma_count_call_if(act == FrameAction::Process, ProcessorCall::Process(h.active.unwrap()), end);
        lemma_count_call_if(
            act == FrameAction::EndProcessor,
            ProcessorCall::End(h.active.unwrap()),
            begin,
        );
        lemma_count_call_if(
            act == FrameAction::EndProcessor,
            ProcessorCall::End(h.active.unwrap()),
            end,
        );

        // Which processors became current
        assert(became_current(steps, p) <==> (became_current(init, p) || (st.picks.len() > 0
            && st.picks.last() == Some(p)))) by {
            if became_current(init, p) {
                let i = choose|i: int|
                    0 <= i < init.len() && #[trigger] init[i].picks.len() > 0 && init[i].picks.last()
                        == Some(p);
                assert(steps[i] == init[i]);
            }
            if st.picks.len() > 0 && st.picks.last() == Some(p) {
                assert(steps[steps.len() - 1] == st);
            }
            if became_current(steps, p) {
                let i = choose|i: int|
                    0 <= i < steps.len() && #[trigger] steps[i].picks.len() > 0 && steps[i].picks.last()
                        == Some(p);
                if i < steps.len() - 1 {
                    assert(init[i] == steps[i]);
                }
            }
        }

        if st.picks.len() > 0 {
            if let Some(q) = st.picks.last() {
                lemma_last_pick_picked(st.picks);
                // The picked processor is new: it never ran before.
                let k = choose|k: int| 0 <= k < new_part.len() && new_part[k] == q;
                assert(picked(steps)[picked(init).len() + k] == q);
                if became_current(init, q) {
                    lemma_became_current_picked(init, q);
                    let j = choose|j: int| 0 <= j < picked(init).len() && picked(init)[j] == q;
                    assert(picked(steps)[j] == q);
                }
                if a == Some(q) {
                    let j = choose|j: int| 0 <= j < picked(init).len() && picked(init)[j] == q;
                    assert(picked(steps)[j] == q);
                }
            }
        }
    }
}

/// Over a whole run of the video thread, when every pick is a new processor:
/// each processor that became the running one is begun exactly once and ended
/// exactly once (when replaced, when it asks to end, or when the thread exits);
/// a processor that was superseded by a later pick before it ran is neither
/// begun nor ended.
pub proof fn law_each_processor_ends_once(steps: Seq<ThreadStep>, p: u64)
    requires
        picked(steps).no_duplicates(),
    ensures
        count_of(thread_calls(steps), ProcessorCall::Begin(p)) == (if became_current(steps, p) {
            1nat
        } else {
            0nat
        }),
        count_of(thread_calls(steps), ProcessorCall::End(p)) == count_of(
            thread_calls(steps),
            ProcessorCall::Begin(p),
        ),
{
    lemma_run_counts(steps, p);
    let a = run_active(steps);
    lemma_count_concat(run_calls(steps), call_if(a is Some, ProcessorCall::End(a.unwrap())), ProcessorCall::Begin(p));
    lemma_count_concat(run_calls(steps), call_if(a is Some, ProcessorCall::End(a.unwrap())), ProcessorCall::End(p));
    lemma_count_call_if(a is Some, ProcessorCall::End(a.unwrap()), ProcessorCall::Begin(p));
    lemma_count_call_if(a is Some, ProcessorCall::End(a.unwrap()), ProcessorCall::End(p));
}

/// A processor processes a frame only while it runs: after the iteration in
/// which it processed, it has been begun and not yet ended.
pub proof fn law_process_only_while_running(steps: Seq<ThreadStep>, i: int, p: u64)
    requires
        picked(steps).no_duplicates(),
        0 <= i < steps.len(),
        step_calls(run_active(steps.take(i)), steps[i]).contains(ProcessorCall::Process(p)),
    ensures
        count_of(run_calls(steps.take(i + 1)), ProcessorCall::Begin(p)) == 1,
        count_of(run_calls(steps.take(i + 1)), ProcessorCall::End(p)) == 0,
{
    let pre = steps.take(i + 1);
    assert(pre.drop_last() =~= steps.take(i));
    assert(pre.last() == steps[i]);
    assert(picked(steps) == picked(pre) + picked(steps.skip(i + 1))) by {
        lemma_picked_split(steps, i + 1);
    }
    assert(picked(pre).no_duplicates()) by {
        let a = picked(pre);
        assert forall|x: int, y: int| 0 <= x < a.len() && 0 <= y < a.len() && x != y implies a[x]
            != a[y] by {
            assert(picked(steps)[x] == a[x]);
            assert(picked(steps)[y] == a[y]);
        }
    }
    lemma_run_counts(pre, p);
    let a = run_active(steps.take(i));
    let st = steps[i];
    let h = spec_hand_over(a, st.picks);
    let act = spec_frame_action(st.new_frame, h.active is Some, st.should_end);
    let calls = step_calls(a, st);
    let k = choose|k: int| 0 <= k < calls.len() && calls[k] == ProcessorCall::Process(p);
    assert(act == FrameAction::Process && h.active == Some(p)) by {
        let c1 = call_if(h.end is Some, ProcessorCall::End(h.end.unwrap()));
        let c2 = call_if(h.begin is Some, ProcessorCall::Begin(h.begin.unwrap()));
        let c3 = call_if(act == FrameAction::Process, ProcessorCall::Process(h.active.unwrap()));
        let c4 = call_if(act == FrameAction::EndProcessor, ProcessorCall::End(h.active.unwrap()));
        assert(calls == c1 + c2 + c3 + c4);
        if k < c1.len() {
            assert(calls[k] == c1[k]);
        } else if k < c1.len() + c2.len() {
            assert(calls[k] == c2[k - c1.len()]);
        } else if k < c1.len() + c2.len() + c3.len() {
            assert(calls[k] == c3[k - c1.len() - c2.len()]);
        } else {
            assert(calls[k] == c4[k - c1.len() - c2.len() - c3.len()]);
        }
    }
    assert(run_active(pre) == Some(p));
}

proof fn lemma_picked_split(steps: Seq<ThreadStep>, n: int)
    requires
        0 <= n <= steps.len(),
    ensures
        picked(steps) == picked(steps.take(n)) + picked(steps.skip(n)),
    decreases steps.len(),
{
    if steps.len() == n {
        assert(steps.take(n) =~= steps);
        assert(steps.skip(n) =~= Seq::<ThreadStep>::empty());
        assert(picked(steps) + Seq::<u64>::empty() =~= picked(steps));
    } else {
        let init = steps.drop_last();
        lemma_picked_split(init, n);
        assert(init.take(n) =~= steps.take(n));
        assert(steps.skip(n).drop_last() =~= init.skip(n));
        assert(steps.skip(n).last() == steps.last());
        assert(picked(steps) =~= picked(steps.take(n)) + picked(steps.skip(n)));
    }
}

} // verus!
