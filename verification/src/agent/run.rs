//! The decisions of the agent loop, apart from the model and tool I/O.
//!
//! The loop streams one model response per round. [`SegmentTracker`] turns
//! the streamed deltas into well-bracketed text / thinking segments;
//! [`RunEvents`] orders every event the run hands out (segments closed
//! before the tool calls start and before the end, nothing after the end);
//! [`AgentRun`] decides, round by round, whether the run goes on and with
//! which response it ends. The caller performs the model call and the tool
//! dispatches and hands the results back.

use crate::agent::event::{AgentEvent, AgentResponse, AgentStep, AgentStopReason, EventKind, kinds};
use crate::model::{
    BlockView, ContentView, HistoryEntry, Message, MessageView, ToolCall, Usage, last_sender, spec_last_sender,
};
use vstd::prelude::*;

verus! {

// ── Segments ────────────────────────────────────────────────────────

/// Which streamed segment is open.
#[derive(PartialEq, Eq, Structural, Clone, Copy, Debug)]
pub enum OpenSegment {
    Closed,
    Text,
    Thinking,
}

/// A content delta of a streamed response.
#[derive(Clone, Debug)]
pub enum BlockDelta {
    Text(String),
    Thinking(String),
    /// A fragment of a tool call's JSON arguments.
    InputJson(String),
}

/// One event's effect on the open segment; `None` when the event is out of
/// place (a delta or end outside its segment, a start inside one).
pub open spec fn segment_step(s: OpenSegment, k: EventKind) -> Option<OpenSegment> {
    match k {
        EventKind::TextStart => if s == OpenSegment::Closed {
            Some(OpenSegment::Text)
        } else {
            None
        },
        EventKind::TextDelta => if s == OpenSegment::Text {
            Some(s)
        } else {
            None
        },
        EventKind::TextEnd => if s == OpenSegment::Text {
            Some(OpenSegment::Closed)
        } else {
            None
        },
        EventKind::ThinkingStart => if s == OpenSegment::Closed {
            Some(OpenSegment::Thinking)
        } else {
            None
        },
        EventKind::ThinkingDelta => if s == OpenSegment::Thinking {
            Some(s)
        } else {
            None
        },
        EventKind::ThinkingEnd => if s == OpenSegment::Thinking {
            Some(OpenSegment::Closed)
        } else {
            None
        },
        _ => Some(s),
    }
}

/// Walk a list of event shapes from `s`: the segment open at the end, or
/// `None` when some event is out of place.
pub open spec fn segment_walk(s: OpenSegment, ks: Seq<EventKind>) -> Option<OpenSegment>
    decreases ks.len(),
{
    if ks.len() == 0 {
        Some(s)
    } else {
        match segment_step(s, ks[0]) {
            Some(t) => segment_walk(t, ks.drop_first()),
            None => None,
        }
    }
}

/// Tracks the open segment of a streamed response.
pub struct SegmentTracker {
    pub open: OpenSegment,
}

impl SegmentTracker {
    /// No segment open.
    pub fn new() -> (r: SegmentTracker)
        ensures
            r.open == OpenSegment::Closed,
    {
        SegmentTracker { open: OpenSegment::Closed }
    }

    /// The events a delta produces: a text delta closes an open thinking
    /// segment and opens a text segment if none is open; an empty thinking
    /// delta produces nothing, a non-empty one mirrors the text case;
    /// argument fragments produce nothing.
    pub fn on_delta(&mut self, delta: BlockDelta) -> (r: Vec<AgentEvent>)
        ensures
            segment_walk(old(self).open, kinds(r@)) == Some(final(self).open),
            match delta {
                BlockDelta::Text(t) => {
                    &&& kinds(r@) == (if old(self).open == OpenSegment::Thinking {
                        seq![EventKind::ThinkingEnd]
                    } else {
                        Seq::empty()
                    }) + (if old(self).open != OpenSegment::Text {
                        seq![EventKind::TextStart]
                    } else {
                        Seq::empty()
                    }) + seq![EventKind::TextDelta]
                    &&& r@.last() matches AgentEvent::TextDelta(x) && x@ == t@
                },
                BlockDelta::Thinking(t) => if t@.len() == 0 {
                    r@.len() == 0 && final(self).open == old(self).open
                } else {
                    &&& kinds(r@) == (if old(self).open == OpenSegment::Text {
                        seq![EventKind::TextEnd]
                    } else {
                        Seq::empty()
                    }) + (if old(self).open != OpenSegment::Thinking {
                        seq![EventKind::ThinkingStart]
                    } else {
                        Seq::empty()
                    }) + seq![EventKind::ThinkingDelta]
                    &&& r@.last() matches AgentEvent::ThinkingDelta(x) && x@ == t@
                },
                BlockDelta::InputJson(_) => r@.len() == 0 && final(self).open == old(self).open,
            },
    {
        let mut out: Vec<AgentEvent> = Vec::new();
        match delta {
            BlockDelta::Text(text) => {
                if self.open != OpenSegment::Text {
                    if self.open == OpenSegment::Thinking {
                        out.push(AgentEvent::ThinkingEnd);
                    }
                    out.push(AgentEvent::TextStart);
                    self.open = OpenSegment::Text;
                }
                out.push(AgentEvent::TextDelta(text));
            },
            BlockDelta::Thinking(thinking) => {
                if !thinking.as_str().is_empty() {
                    if self.open != OpenSegment::Thinking {
                        if self.open == OpenSegment::Text {
                            out.push(AgentEvent::TextEnd);
                        }
                        out.push(AgentEvent::ThinkingStart);
                        self.open = OpenSegment::Thinking;
                    }
                    out.push(AgentEvent::ThinkingDelta(thinking));
                }
            },
            BlockDelta::InputJson(_) => {},
        }
        proof {
            reveal_with_fuel(segment_walk, 4);
            let ks = kinds(out@);
            assert(ks.len() <= 3);
            if ks.len() > 0 {
                assert(ks.drop_first().len() < 3);
                if ks.drop_first().len() > 0 {
                    assert(ks.drop_first().drop_first().len() < 2);
                    if ks.drop_first().drop_first().len() > 0 {
                        assert(ks.drop_first().drop_first().drop_first() =~= Seq::<EventKind>::empty());
                    }
                }
            }
        }
        out
    }

    /// Close whatever segment is open.
    pub fn finish(&mut self) -> (r: Vec<AgentEvent>)
        ensures
            final(self).open == OpenSegment::Closed,
            kinds(r@) == match old(self).open {
                OpenSegment::Text => seq![EventKind::TextEnd],
                OpenSegment::Thinking => seq![EventKind::ThinkingEnd],
                OpenSegment::Closed => Seq::<EventKind>::empty(),
            },
            segment_walk(old(self).open, kinds(r@)) == Some(OpenSegment::Closed),
    {
        let mut out: Vec<AgentEvent> = Vec::new();
        match self.open {
            OpenSegment::Text => out.push(AgentEvent::TextEnd),
            OpenSegment::Thinking => out.push(AgentEvent::ThinkingEnd),
            OpenSegment::Closed => {},
        }
        self.open = OpenSegment::Closed;
        proof {
            reveal_with_fuel(segment_walk, 2);
            let ks = kinds(out@);
            if ks.len() > 0 {
                assert(ks.drop_first() =~= Seq::<EventKind>::empty());
            }
        }
        out
    }
}

/// Walking two lists one after the other is walking their concatenation.
pub proof fn lemma_segment_walk_concat(s: OpenSegment, a: Seq<EventKind>, b: Seq<EventKind>)
    ensures
        segment_walk(s, a + b) == match segment_walk(s, a) {
            Some(t) => segment_walk(t, b),
            None => None,
        },
    decreases a.len(),
{
    if a.len() == 0 {
        assert(a + b =~= b);
    } else {
        assert((a + b)[0] == a[0]);
        assert((a + b).drop_first() =~= a.drop_first() + b);
        if let Some(t) = segment_step(s, a[0]) {
            lemma_segment_walk_concat(t, a.drop_first(), b);
        }
    }
}

/// The segments of a streamed round stay well-bracketed: if the events so
/// far walk from "nothing open" to `open`, and the next call's events walk
/// from `open` to `next`, then all events together walk from "nothing
/// open" to `next`; after `finish`, nothing is open.
pub proof fn lemma_segments_stay_bracketed(
    before: Seq<EventKind>,
    out: Seq<EventKind>,
    open: OpenSegment,
    next: OpenSegment,
)
    requires
        segment_walk(OpenSegment::Closed, before) == Some(open),
        segment_walk(open, out) == Some(next),
    ensures
        segment_walk(OpenSegment::Closed, before + out) == Some(next),
{
    lemma_segment_walk_concat(OpenSegment::Closed, before, out);
}

// ── The event sequence of a run ─────────────────────────────────────

/// A tool-call start or the run's end: events at which no segment may be
/// open.
pub open spec fn is_boundary(k: EventKind) -> bool {
    k == EventKind::ToolCallsStart || k == EventKind::Done
}

/// An event that opens, continues or closes a segment.
pub open spec fn is_segment_kind(k: EventKind) -> bool {
    ||| k == EventKind::TextStart
    ||| k == EventKind::TextDelta
    ||| k == EventKind::TextEnd
    ||| k == EventKind::ThinkingStart
    ||| k == EventKind::ThinkingDelta
    ||| k == EventKind::ThinkingEnd
}

/// No segment is open at any tool-call start or end of `ks`.
pub open spec fn closed_at_boundaries(ks: Seq<EventKind>) -> bool {
    forall|i: int| 0 <= i < ks.len() && is_boundary(#[trigger] ks[i]) ==> segment_walk(OpenSegment::Closed, ks.take(i))
        == Some(OpenSegment::Closed)
}

/// Appending events that walk from the open segment, with nothing open at
/// their own boundaries, keeps a sequence well-bracketed and closed at
/// every boundary.
proof fn lemma_append_events(before: Seq<EventKind>, open: OpenSegment, out: Seq<EventKind>, next: OpenSegment)
    requires
        segment_walk(OpenSegment::Closed, before) == Some(open),
        closed_at_boundaries(before),
        segment_walk(open, out) == Some(next),
        forall|m: int| 0 <= m < out.len() && is_boundary(#[trigger] out[m]) ==> segment_walk(open, out.take(m))
            == Some(OpenSegment::Closed),
    ensures
        segment_walk(OpenSegment::Closed, before + out) == Some(next),
        closed_at_boundaries(before + out),
{
    lemma_segment_walk_concat(OpenSegment::Closed, before, out);
    let all = before + out;
    assert forall|i: int| 0 <= i < all.len() && is_boundary(#[trigger] all[i]) implies segment_walk(
        OpenSegment::Closed,
        all.take(i),
    ) == Some(OpenSegment::Closed) by {
        if i < before.len() {
            assert(all.take(i) =~= before.take(i));
            assert(all[i] == before[i]);
        } else {
            let m = i - before.len();
            assert(all[i] == out[m]);
            assert(all.take(i) =~= before + out.take(m));
            lemma_segment_walk_concat(OpenSegment::Closed, before, out.take(m));
        }
    }
}

/// The events a run hands out, across all its rounds: every delta goes
/// through the segment tracker, a segment still open is closed before the
/// tool calls start and before the end, and nothing follows the end.
pub struct RunEvents {
    pub tracker: SegmentTracker,
    /// The shapes of the events handed out so far.
    pub emitted: Ghost<Seq<EventKind>>,
    /// Whether the end has been handed out.
    pub done: bool,
}

impl RunEvents {
    /// The sequence so far is well-bracketed up to the open segment, no
    /// segment is open at a tool-call start or at the end, and the end, once
    /// handed out, is the last event and the only one.
    pub open spec fn wf(&self) -> bool {
        let ks = self.emitted@;
        &&& segment_walk(OpenSegment::Closed, ks) == Some(self.tracker.open)
        &&& closed_at_boundaries(ks)
        &&& forall|i: int| 0 <= i < ks.len() - 1 ==> #[trigger] ks[i] != EventKind::Done
        &&& self.done <==> (ks.len() > 0 && ks.last() == EventKind::Done)
        &&& self.done ==> self.tracker.open == OpenSegment::Closed
    }

    /// Nothing handed out yet.
    pub fn new() -> (r: RunEvents)
        ensures
            r.wf(),
            r.emitted@.len() == 0,
            !r.done,
    {
        RunEvents { tracker: SegmentTracker::new(), emitted: Ghost(Seq::empty()), done: false }
    }

    /// The events a streamed delta produces (see [`SegmentTracker::on_delta`]).
    pub fn on_delta(&mut self, delta: BlockDelta) -> (r: Vec<AgentEvent>)
        requires
            old(self).wf(),
            !old(self).done,
        ensures
            final(self).wf(),
            !final(self).done,
            final(self).emitted@ == old(self).emitted@ + kinds(r@),
            forall|m: int| 0 <= m < r@.len() ==> is_segment_kind(#[trigger] r@[m].kind()),
    {
        let ghost before = self.emitted@;
        let ghost open = self.tracker.open;
        let r = self.tracker.on_delta(delta);
        proof {
            let ks = kinds(r@);
            assert forall|m: int| 0 <= m < r@.len() implies is_segment_kind(#[trigger] r@[m].kind()) by {
                assert(ks[m] == r@[m].kind());
            }
            assert forall|m: int| 0 <= m < ks.len() && is_boundary(#[trigger] ks[m]) implies segment_walk(
                open,
                ks.take(m),
            ) == Some(OpenSegment::Closed) by {
                assert(ks[m] == r@[m].kind());
            }
            lemma_append_events(before, open, ks, self.tracker.open);
            assert forall|i: int| 0 <= i < (before + ks).len() - 1 implies #[trigger] (before + ks)[i]
                != EventKind::Done by {
                if i >= before.len() {
                    assert((before + ks)[i] == r@[i - before.len()].kind());
                }
            }
            if ks.len() > 0 {
                assert((before + ks).last() == r@[ks.len() - 1].kind());
            }
        }
        self.emitted = Ghost(self.emitted@ + kinds(r@));
        r
    }

    /// Close the open segment, if any.
    pub fn close(&mut self) -> (r: Vec<AgentEvent>)
        requires
            old(self).wf(),
            !old(self).done,
        ensures
            final(self).wf(),
            !final(self).done,
            final(self).tracker.open == OpenSegment::Closed,
            final(self).emitted@ == old(self).emitted@ + kinds(r@),
            kinds(r@) == match old(self).tracker.open {
                OpenSegment::Text => seq![EventKind::TextEnd],
                OpenSegment::Thinking => seq![EventKind::ThinkingEnd],
                OpenSegment::Closed => Seq::<EventKind>::empty(),
            },
    {
        let ghost before = self.emitted@;
        let ghost open = self.tracker.open;
        let r = self.tracker.finish();
        proof {
            let ks = kinds(r@);
            lemma_append_events(before, open, ks, OpenSegment::Closed);
            assert forall|i: int| 0 <= i < (before + ks).len() - 1 implies #[trigger] (before + ks)[i]
                != EventKind::Done by {
                if i >= before.len() {
                    assert((before + ks)[i] == ks[i - before.len()]);
                }
            }
        }
        self.emitted = Ghost(self.emitted@ + kinds(r@));
        r
    }

    /// Hand out an event that neither touches a segment nor needs one
    /// closed (steering, a tool-call announcement or result, the end of the
    /// tool calls, a usage report).
    pub fn other(&mut self, event: AgentEvent) -> (r: AgentEvent)
        requires
            old(self).wf(),
            !old(self).done,
            !is_segment_kind(event.kind()),
            !is_boundary(event.kind()),
        ensures
            final(self).wf(),
            !final(self).done,
            final(self).tracker == old(self).tracker,
            final(self).emitted@ == old(self).emitted@.push(event.kind()),
            r == event,
    {
        let ghost before = self.emitted@;
        let ghost ks = seq![event.kind()];
        proof {
            reveal_with_fuel(segment_walk, 2);
            assert(ks.drop_first() =~= Seq::<EventKind>::empty());
            lemma_append_events(before, self.tracker.open, ks, self.tracker.open);
            assert(before + ks =~= before.push(event.kind()));
        }
        self.emitted = Ghost(self.emitted@.push(event.kind()));
        event
    }

    /// Close the open segment and start the tool calls.
    pub fn tool_calls_start(&mut self, calls: Vec<ToolCall>) -> (r: Vec<AgentEvent>)
        requires
            old(self).wf(),
            !old(self).done,
        ensures
            final(self).wf(),
            !final(self).done,
            final(self).tracker.open == OpenSegment::Closed,
            final(self).emitted@ == old(self).emitted@ + kinds(r@),
            r@.len() > 0 && r@.last() == AgentEvent::ToolCallsStart(calls),
    {
        let ghost before = self.emitted@;
        let ghost open = self.tracker.open;
        let mut r = self.tracker.finish();
        let ghost fin = kinds(r@);
        r.push(AgentEvent::ToolCallsStart(calls));
        proof {
            let ks = kinds(r@);
            assert(ks =~= fin.push(EventKind::ToolCallsStart));
            assert(ks.take(fin.len() as int) =~= fin);
            reveal_with_fuel(segment_walk, 2);
            lemma_segment_walk_concat(open, fin, seq![EventKind::ToolCallsStart]);
            assert(seq![EventKind::ToolCallsStart].drop_first() =~= Seq::<EventKind>::empty());
            assert(fin + seq![EventKind::ToolCallsStart] =~= ks);
            assert forall|m: int| 0 <= m < ks.len() && is_boundary(#[trigger] ks[m]) implies segment_walk(
                open,
                ks.take(m),
            ) == Some(OpenSegment::Closed) by {
                if m < fin.len() {
                    assert(ks[m] == fin[m]);
                }
            }
            lemma_append_events(before, open, ks, OpenSegment::Closed);
            assert forall|i: int| 0 <= i < (before + ks).len() - 1 implies #[trigger] (before + ks)[i]
                != EventKind::Done by {
                if i >= before.len() {
                    assert((before + ks)[i] == ks[i - before.len()]);
                }
            }
            assert((before + ks).last() == EventKind::ToolCallsStart);
        }
        self.emitted = Ghost(self.emitted@ + kinds(r@));
        r
    }

    /// Close the open segment and end the run with `response`.
    pub fn done(&mut self, response: AgentResponse) -> (r: Vec<AgentEvent>)
        requires
            old(self).wf(),
            !old(self).done,
        ensures
            final(self).wf(),
            final(self).done,
            final(self).tracker.open == OpenSegment::Closed,
            final(self).emitted@ == old(self).emitted@ + kinds(r@),
            r@.len() > 0 && r@.last() == AgentEvent::Done(response),
    {
        let ghost before = self.emitted@;
        let ghost open = self.tracker.open;
        let mut r = self.tracker.finish();
        let ghost fin = kinds(r@);
        r.push(AgentEvent::Done(response));
        self.done = true;
        proof {
            let ks = kinds(r@);
            assert(ks =~= fin.push(EventKind::Done));
            assert(ks.take(fin.len() as int) =~= fin);
            reveal_with_fuel(segment_walk, 2);
            lemma_segment_walk_concat(open, fin, seq![EventKind::Done]);
            assert(seq![EventKind::Done].drop_first() =~= Seq::<EventKind>::empty());
            assert(fin + seq![EventKind::Done] =~= ks);
            assert forall|m: int| 0 <= m < ks.len() && is_boundary(#[trigger] ks[m]) implies segment_walk(
                open,
                ks.take(m),
            ) == Some(OpenSegment::Closed) by {
                if m < fin.len() {
                    assert(ks[m] == fin[m]);
                }
            }
            lemma_append_events(before, open, ks, OpenSegment::Closed);
            assert forall|i: int| 0 <= i < (before + ks).len() - 1 implies #[trigger] (before + ks)[i]
                != EventKind::Done by {
                if i >= before.len() {
                    assert((before + ks)[i] == ks[i - before.len()]);
                    assert(i - before.len() < fin.len());
                    assert(ks[i - before.len()] == fin[i - before.len()]);
                }
            }
            assert((before + ks).last() == EventKind::Done);
        }
        self.emitted = Ghost(self.emitted@ + kinds(r@));
        r
    }
}

/// The events of a run are well-bracketed: text and thinking segments open
/// and close in turn, every delta lies inside its segment, no segment is
/// open at a tool-call start or at the end, and the end, once reached, is
/// the last event and comes once.
pub proof fn lemma_run_events_well_formed(events: RunEvents)
    requires
        events.wf(),
    ensures
        segment_walk(OpenSegment::Closed, events.emitted@) is Some,
        closed_at_boundaries(events.emitted@),
        events.done ==> segment_walk(OpenSegment::Closed, events.emitted@) == Some(OpenSegment::Closed),
        events.done ==> events.emitted@.last() == EventKind::Done && forall|i: int|
            0 <= i < events.emitted@.len() - 1 ==> #[trigger] events.emitted@[i] != EventKind::Done,
{
}

// ── Rounds ──────────────────────────────────────────────────────────

/// The text of a step's message, owned.
pub open spec fn step_text(step: AgentStep) -> Option<Seq<char>> {
    step.message.spec_text()
}

/// An owned copy of a message's text.
pub fn owned_text(message: &Message) -> (r: Option<String>)
    ensures
        r matches Some(s) ==> message.spec_text() == Some(s@),
        r is None <==> message.spec_text() is None,
{
    match message.text() {
        Some(t) => Some(t.to_owned()),
        None => None,
    }
}

/// The state of an agent run between rounds.
pub struct AgentRun {
    /// Steps committed so far; every one asked for tools.
    pub steps: Vec<AgentStep>,
    /// Model calls started so far.
    pub rounds: usize,
    /// The iteration limit.
    pub max_iterations: usize,
    /// Model the run uses.
    pub model: String,
}

/// What committing a step leads to.
pub enum StepOutcome {
    /// The step asked for tools: run another round.
    Continue(AgentRun),
    /// The step answered without tools: the run is done.
    Done(AgentResponse),
}

impl AgentRun {
    /// The run's invariant: every round started commits at most one step
    /// (all but the round under way have committed theirs), no more rounds
    /// than allowed, and every committed step asked for tools.
    pub open spec fn wf(&self) -> bool {
        &&& self.steps@.len() <= self.rounds <= self.max_iterations
        &&& self.rounds <= self.steps@.len() + 1
        &&& forall|i: int| 0 <= i < self.steps@.len() ==> #[trigger] self.steps@[i].tool_calls@.len() > 0
    }

    /// A fresh run.
    pub fn new(max_iterations: usize, model: String) -> (r: AgentRun)
        ensures
            r.wf(),
            r.steps@.len() == 0,
            r.rounds == 0,
            r.max_iterations == max_iterations,
            r.model == model,
    {
        AgentRun { steps: Vec::new(), rounds: 0, max_iterations, model }
    }

    /// Start another round if the limit allows; `false` once
    /// `max_iterations` rounds have been started, and then every one of
    /// them has committed its step. Called between rounds, when every
    /// round started has committed.
    pub fn begin_round(&mut self) -> (r: bool)
        requires
            old(self).wf(),
            old(self).steps@.len() == old(self).rounds,
        ensures
            final(self).wf(),
            r == (old(self).rounds < old(self).max_iterations),
            r ==> final(self).steps@.len() + 1 == final(self).rounds,
            !r ==> final(self).steps@.len() == final(self).max_iterations,
            final(self).rounds == if r {
                old(self).rounds + 1
            } else {
                old(self).rounds as int
            },
            final(self).steps == old(self).steps,
            final(self).max_iterations == old(self).max_iterations,
            final(self).model == old(self).model,
    {
        if self.rounds < self.max_iterations {
            self.rounds = self.rounds + 1;
            true
        } else {
            false
        }
    }

    /// The model stream failed: the run ends with the error.
    pub fn fail(self, error: String) -> (r: AgentResponse)
        ensures
            r.final_response is None,
            r.iterations == self.steps@.len(),
            r.stop_reason == AgentStopReason::Error(error),
            r.steps == self.steps,
            r.model == self.model,
    {
        let n = self.steps.len();
        AgentResponse {
            final_response: None,
            iterations: n,
            stop_reason: AgentStopReason::Error(error),
            steps: self.steps,
            model: self.model,
        }
    }

    /// A round that produced neither text nor tool calls.
    pub fn is_no_op(message: &Message, tool_calls: &Vec<ToolCall>) -> (r: bool)
        ensures
            r == (message.spec_text() is None && tool_calls@.len() == 0),
    {
        message.text().is_none() && tool_calls.len() == 0
    }

    /// The round produced nothing usable: the run ends with no action, and
    /// the empty message is not committed.
    pub fn no_op(self) -> (r: AgentResponse)
        ensures
            r.final_response is None,
            r.iterations == self.steps@.len(),
            r.stop_reason == AgentStopReason::NoAction,
            r.steps == self.steps,
            r.model == self.model,
    {
        let n = self.steps.len();
        AgentResponse {
            final_response: None,
            iterations: n,
            stop_reason: AgentStopReason::NoAction,
            steps: self.steps,
            model: self.model,
        }
    }

    /// The stop reason of a step with no tool calls: a text response when
    /// the message has text, otherwise no action.
    pub fn stop_reason(step: &AgentStep) -> (r: AgentStopReason)
        ensures
            r == if step_text(*step) is Some {
                AgentStopReason::TextResponse
            } else {
                AgentStopReason::NoAction
            },
    {
        if step.message.text().is_some() {
            AgentStopReason::TextResponse
        } else {
            AgentStopReason::NoAction
        }
    }

    /// Commit a finished round. A step with tool calls continues the run;
    /// one without ends it with that step's text as the final response.
    pub fn commit(self, step: AgentStep) -> (r: StepOutcome)
        requires
            self.wf(),
            self.steps@.len() < self.rounds,
        ensures
            step.tool_calls@.len() > 0 ==> (r matches StepOutcome::Continue(run) && run.wf()
                && run.steps@ == self.steps@.push(step) && run.rounds == self.rounds
                && run.steps@.len() == run.rounds
                && run.max_iterations == self.max_iterations && run.model == self.model),
            step.tool_calls@.len() == 0 ==> (r matches StepOutcome::Done(resp) && resp.steps@
                == self.steps@.push(step) && resp.iterations == self.steps@.len() + 1
                && resp.model == self.model && resp.stop_reason == (if step_text(step) is Some {
                AgentStopReason::TextResponse
            } else {
                AgentStopReason::NoAction
            }) && (match resp.final_response {
                Some(s) => step_text(step) == Some(s@),
                None => step_text(step) is None,
            })),
    {
        let mut run = self;
        if step.tool_calls.len() > 0 {
            run.steps.push(step);
            assert forall|i: int| 0 <= i < run.steps@.len() implies #[trigger] run.steps@[i].tool_calls@.len() > 0 by {
                if i < self.steps@.len() {
                    assert(run.steps@[i] == self.steps@[i]);
                }
            }
            StepOutcome::Continue(run)
        } else {
            let stop_reason = Self::stop_reason(&step);
            let final_response = owned_text(&step.message);
            run.steps.push(step);
            let n = run.steps.len();
            StepOutcome::Done(
                AgentResponse {
                    final_response,
                    iterations: n,
                    stop_reason,
                    steps: run.steps,
                    model: run.model,
                },
            )
        }
    }

    /// Every allowed round asked for tools: the run ends at the iteration
    /// limit, with the last step's text as the final response.
    pub fn exhausted(self) -> (r: AgentResponse)
        ensures
            r.iterations == self.steps@.len(),
            r.stop_reason == AgentStopReason::MaxIterations,
            r.steps == self.steps,
            r.model == self.model,
            match r.final_response {
                Some(s) => self.steps@.len() > 0 && step_text(self.steps@.last()) == Some(s@),
                None => self.steps@.len() == 0 || step_text(self.steps@.last()) is None,
            },
    {
        let n = self.steps.len();
        let final_response = if n > 0 {
            owned_text(&self.steps[n - 1].message)
        } else {
            None
        };
        AgentResponse {
            final_response,
            iterations: n,
            stop_reason: AgentStopReason::MaxIterations,
            steps: self.steps,
            model: self.model,
        }
    }
}

/// Borrow the inner string from a tool-dispatch result regardless of
/// success or error: the wire format has no error flag, so both arms go
/// into history as plain text.
pub fn tool_output_text(result: &Result<String, String>) -> (r: &str)
    ensures
        r@ == match result {
            Ok(s) => s@,
            Err(s) => s@,
        },
{
    match result {
        Ok(s) => s.as_str(),
        Err(s) => s.as_str(),
    }
}

// ── History ─────────────────────────────────────────────────────────

/// Whether `e` is the tool-result entry for call `id` of tool `name` with
/// output `text`.
pub open spec fn is_tool_entry(e: HistoryEntry, text: Seq<char>, id: Seq<char>, name: Seq<char>) -> bool {
    &&& e.agent@.len() == 0
    &&& e.sender@.len() == 0
    &&& !e.auto_injected
    &&& e.message.view_of() == (MessageView {
        role: "user"@,
        content: ContentView::Blocks(seq![BlockView::ToolResultText { tool_use_id: id, name: Some(name), text }]),
    })
}

/// The text that goes into history for a tool's output, error or not.
pub open spec fn output_text(result: Result<String, String>) -> Seq<char> {
    match result {
        Ok(s) => s@,
        Err(s) => s@,
    }
}

/// Commit a round to history: the assistant message, then one tool result
/// per call, in call order. The tool results are also returned for the
/// step. Nothing is written before all outputs are in, so a round that is
/// cut short leaves no tool use without its result.
pub fn commit_round(
    history: &mut Vec<HistoryEntry>,
    message: Message,
    calls: &Vec<ToolCall>,
    outputs: &Vec<Result<String, String>>,
) -> (r: Vec<HistoryEntry>)
    requires
        outputs@.len() == calls@.len(),
    ensures
        final(history)@.len() == old(history)@.len() + 1 + calls@.len(),
        final(history)@.take(old(history)@.len() as int) == old(history)@,
        ({
            let e = final(history)@[old(history)@.len() as int];
            e.message == message && e.agent@.len() == 0 && e.sender@.len() == 0 && !e.auto_injected
        }),
        r@.len() == calls@.len(),
        forall|i: int|
            0 <= i < calls@.len() ==> {
                &&& is_tool_entry(
                    #[trigger] final(history)@[old(history)@.len() + 1 + i],
                    output_text(outputs@[i]),
                    calls@[i].id@,
                    calls@[i].name@,
                )
                &&& is_tool_entry(r@[i], output_text(outputs@[i]), calls@[i].id@, calls@[i].name@)
            },
{
    let ghost start = old(history)@;
    history.push(HistoryEntry::from_message(message));
    assert(history@.take(start.len() as int) == start);
    let mut results: Vec<HistoryEntry> = Vec::new();
    let mut i: usize = 0;
    while i < calls.len()
        invariant
            outputs@.len() == calls@.len(),
            i <= calls@.len(),
            history@.len() == start.len() + 1 + i,
            start == old(history)@,
            history@.take(start.len() as int) == start,
            history@[start.len() as int].message == message,
            history@[start.len() as int].agent@.len() == 0,
            history@[start.len() as int].sender@.len() == 0,
            !history@[start.len() as int].auto_injected,
            results@.len() == i,
            forall|k: int|
                0 <= k < i ==> {
                    &&& is_tool_entry(
                        #[trigger] history@[start.len() + 1 + k],
                        output_text(outputs@[k]),
                        calls@[k].id@,
                        calls@[k].name@,
                    )
                    &&& is_tool_entry(results@[k], output_text(outputs@[k]), calls@[k].id@, calls@[k].name@)
                },
        decreases calls@.len() - i,
    {
        let text = tool_output_text(&outputs[i]);
        let entry = HistoryEntry::tool(text, calls[i].id.as_str(), calls[i].name.as_str());
        let copy = HistoryEntry::tool(text, calls[i].id.as_str(), calls[i].name.as_str());
        let ghost before = history@;
        history.push(entry);
        results.push(copy);
        assert(history@.take(start.len() as int) == before.take(start.len() as int));
        assert(history@[start.len() as int] == before[start.len() as int]);
        i += 1;
    }
    results
}

/// A steering message arrived before the next model call: it goes into
/// history as a user message from the conversation's last sender, and the
/// run reports it.
pub fn steer(history: &mut Vec<HistoryEntry>, content: String) -> (r: AgentEvent)
    ensures
        final(history)@.len() == old(history)@.len() + 1,
        final(history)@.take(old(history)@.len() as int) == old(history)@,
        ({
            let e = final(history)@.last();
            &&& e.sender@ == spec_last_sender(old(history)@)
            &&& e.agent@.len() == 0
            &&& !e.auto_injected
            &&& e.message.view_of() == (MessageView {
                role: "user"@,
                content: ContentView::Blocks(seq![BlockView::Text { text: content@ }]),
            })
        }),
        r == (AgentEvent::UserSteered { content }),
{
    let sender = last_sender(history);
    let entry = HistoryEntry::user_with_sender(content.as_str(), sender.as_str());
    history.push(entry);
    assert(history@.take(old(history)@.len() as int) =~= old(history)@);
    AgentEvent::UserSteered { content }
}

/// The context-usage report after a model call: only when it counted any
/// tokens.
pub fn context_usage_event(usage: Usage) -> (r: Option<AgentEvent>)
    requires
        usage.spec_total() <= u32::MAX,
    ensures
        match r {
            Some(e) => usage.spec_total() > 0 && e == (AgentEvent::ContextUsage { usage }),
            None => usage.spec_total() == 0,
        },
{
    if usage.total_tokens() > 0 {
        Some(AgentEvent::ContextUsage { usage })
    } else {
        None
    }
}

/// Announces the tool calls of a streaming response once, as soon as the
/// response holds any.
pub struct ToolAnnouncer {
    pub announced: bool,
}

impl ToolAnnouncer {
    /// Nothing announced yet.
    pub fn new() -> (r: ToolAnnouncer)
        ensures
            !r.announced,
    {
        ToolAnnouncer { announced: false }
    }

    /// The calls seen so far: announced (as `ToolCallsBegin`) the first
    /// time there are any, and never again.
    pub fn on_calls(&mut self, calls: Vec<ToolCall>) -> (r: Option<AgentEvent>)
        ensures
            final(self).announced == (old(self).announced || calls@.len() > 0),
            r is Some <==> (!old(self).announced && calls@.len() > 0),
            r matches Some(e) ==> e == AgentEvent::ToolCallsBegin(calls),
    {
        if self.announced || calls.len() == 0 {
            None
        } else {
            self.announced = true;
            Some(AgentEvent::ToolCallsBegin(calls))
        }
    }
}

/// The failure of a tool call when the agent has no tool dispatcher.
pub fn no_dispatcher_error(name: &str) -> (r: String)
    ensures
        r@ == "tool '"@ + name@ + "' called but no tool dispatcher configured"@,
{
    let mut r = crate::text::string_of("tool '");
    r.append(name);
    r.append("' called but no tool dispatcher configured");
    r
}

/// The response of a run whose event stream ended without a `Done`.
pub fn ended_without_done(model: String) -> (r: AgentResponse)
    ensures
        r.final_response is None,
        r.iterations == 0,
        r.stop_reason matches AgentStopReason::Error(e) && e@ == "stream ended without Done"@,
        r.steps@.len() == 0,
        r.model == model,
{
    AgentResponse {
        final_response: None,
        iterations: 0,
        stop_reason: AgentStopReason::Error(crate::text::string_of("stream ended without Done")),
        steps: Vec::new(),
        model,
    }
}

// ── Tool outputs in call order ──────────────────────────────────────

/// The slots after a series of fills `(position, output)`, from `n` empty
/// ones: each fill sets its position.
pub open spec fn filled(n: nat, fills: Seq<(int, Result<String, String>)>) -> Seq<Option<Result<String, String>>>
    decreases fills.len(),
{
    if fills.len() == 0 {
        Seq::new(n, |i: int| None)
    } else {
        filled(n, fills.drop_last()).update(fills.last().0, Some(fills.last().1))
    }
}

/// Tool outputs gathered as the dispatches finish, in whatever order they
/// finish, each kept at its call's position so that history gets them in
/// call order.
pub struct OutputSlots {
    slots: Vec<Option<Result<String, String>>>,
}

impl OutputSlots {
    /// The slots by call position.
    pub closed spec fn slots(&self) -> Seq<Option<Result<String, String>>> {
        self.slots@
    }

    /// One empty slot per call.
    pub fn new(n: usize) -> (r: OutputSlots)
        ensures
            r.slots() == Seq::new(n as nat, |i: int| None::<Result<String, String>>),
    {
        let mut slots: Vec<Option<Result<String, String>>> = Vec::new();
        let mut i: usize = 0;
        while i < n
            invariant
                i <= n,
                slots@ == Seq::new(i as nat, |j: int| None::<Result<String, String>>),
            decreases n - i,
        {
            slots.push(None);
            i += 1;
            assert(slots@ =~= Seq::new(i as nat, |j: int| None::<Result<String, String>>));
        }
        OutputSlots { slots }
    }

    /// The number of calls.
    pub fn len(&self) -> (r: usize)
        ensures
            r == self.slots().len(),
    {
        self.slots.len()
    }

    /// Keep the output of the call at position `idx`.
    pub fn fill(&mut self, idx: usize, output: Result<String, String>)
        requires
            idx < old(self).slots().len(),
        ensures
            final(self).slots() == old(self).slots().update(idx as int, Some(output)),
    {
        self.slots.set(idx, Some(output));
    }

    /// Whether every call has its output.
    pub fn all_filled(&self) -> (r: bool)
        ensures
            r == forall|i: int| 0 <= i < self.slots().len() ==> #[trigger] self.slots()[i] is Some,
    {
        let mut i: usize = 0;
        while i < self.slots.len()
            invariant
                i <= self.slots@.len(),
                forall|j: int| 0 <= j < i ==> #[trigger] self.slots@[j] is Some,
            decreases self.slots@.len() - i,
        {
            if self.slots[i].is_none() {
                return false;
            }
            i += 1;
        }
        true
    }

    /// The outputs in call order, once every call has one.
    pub fn into_outputs(self) -> (r: Vec<Result<String, String>>)
        requires
            forall|i: int| 0 <= i < self.slots().len() ==> #[trigger] self.slots()[i] is Some,
        ensures
            r@.len() == self.slots().len(),
            forall|i: int| 0 <= i < r@.len() ==> self.slots()[i] == Some(#[trigger] r@[i]),
    {
        let ghost all = self.slots@;
        assert forall|i: int| 0 <= i < all.len() implies #[trigger] all[i] is Some by {
            assert(self.slots()[i] is Some);
        }
        assert(all.skip(0) =~= all);
        let mut out: Vec<Result<String, String>> = Vec::new();
        let mut rest = self.slots;
        while rest.len() > 0
            invariant
                out@.len() + rest@.len() == all.len(),
                rest@ == all.skip(out@.len() as int),
                forall|i: int| 0 <= i < all.len() ==> #[trigger] all[i] is Some,
                forall|i: int| 0 <= i < out@.len() ==> all[i] == Some(#[trigger] out@[i]),
            decreases rest@.len(),
        {
            let ghost k = out@.len() as int;
            let ghost before = rest@;
            let slot = rest.remove(0);
            proof {
                assert(slot == all[k]);
                assert(rest@ =~= all.skip(k + 1));
            }
            match slot {
                Some(o) => out.push(o),
                None => {
                    assert(all[k] is Some);
                    return out;
                },
            }
        }
        out
    }
}

// ── Laws ────────────────────────────────────────────────────────────

/// Whatever order the tool dispatches finish in, each output lands at its
/// call's position: with distinct positions in range, the slot of every
/// fill holds that fill's output, and a slot is filled exactly when some
/// fill names it.
pub proof fn lemma_outputs_keep_call_order(n: nat, fills: Seq<(int, Result<String, String>)>)
    requires
        forall|k: int| 0 <= k < fills.len() ==> 0 <= (#[trigger] fills[k]).0 < n,
        forall|a: int, b: int| 0 <= a < b < fills.len() ==> (#[trigger] fills[a]).0 != (#[trigger] fills[b]).0,
    ensures
        filled(n, fills).len() == n,
        forall|k: int| 0 <= k < fills.len() ==> filled(n, fills)[(#[trigger] fills[k]).0] == Some(fills[k].1),
        forall|i: int|
            0 <= i < n ==> ((#[trigger] filled(n, fills)[i]) is Some <==> exists|k: int|
                0 <= k < fills.len() && (#[trigger] fills[k]).0 == i),
    decreases fills.len(),
{
    if fills.len() > 0 {
        let init = fills.drop_last();
        assert forall|k: int| 0 <= k < init.len() implies 0 <= (#[trigger] init[k]).0 < n by {
            assert(init[k] == fills[k]);
        }
        assert forall|a: int, b: int| 0 <= a < b < init.len() implies (#[trigger] init[a]).0 != (
        #[trigger] init[b]).0 by {
            assert(init[a] == fills[a]);
            assert(init[b] == fills[b]);
        }
        lemma_outputs_keep_call_order(n, init);
        let last = fills.len() - 1;
        assert forall|k: int| 0 <= k < fills.len() implies filled(n, fills)[(#[trigger] fills[k]).0] == Some(
            fills[k].1,
        ) by {
            if k < last {
                assert(init[k] == fills[k]);
                assert(fills[k].0 != fills[last].0);
            }
        }
        assert forall|i: int| 0 <= i < n implies ((#[trigger] filled(n, fills)[i]) is Some <==> exists|k: int|
            0 <= k < fills.len() && (#[trigger] fills[k]).0 == i) by {
            if i == fills[last].0 {
                assert(0 <= last < fills.len() && fills[last].0 == i);
            } else {
                if filled(n, fills)[i] is Some {
                    assert(filled(n, init)[i] is Some);
                    let k = choose|k: int| 0 <= k < init.len() && (#[trigger] init[k]).0 == i;
                    assert(init[k] == fills[k]);
                    assert(0 <= k < fills.len() && fills[k].0 == i);
                }
                if exists|k: int| 0 <= k < fills.len() && (#[trigger] fills[k]).0 == i {
                    let k = choose|k: int| 0 <= k < fills.len() && (#[trigger] fills[k]).0 == i;
                    assert(k != last);
                    assert(init[k] == fills[k]);
                    assert(0 <= k < init.len() && init[k].0 == i);
                }
            }
        }
    }
}

/// A run never starts more rounds than its limit and never commits more
/// steps than rounds started.
pub proof fn lemma_run_bounded(run: AgentRun)
    requires
        run.wf(),
    ensures
        run.steps@.len() <= run.rounds <= run.max_iterations,
{
}

/// A run that stops at its iteration limit between rounds holds exactly
/// `max_iterations` steps, each of which asked for tools.
pub proof fn lemma_exhausted_run_is_full(run: AgentRun)
    requires
        run.wf(),
        run.steps@.len() == run.rounds,
        run.rounds >= run.max_iterations,
    ensures
        run.steps@.len() == run.max_iterations,
        forall|i: int| 0 <= i < run.steps@.len() ==> #[trigger] run.steps@[i].tool_calls@.len() > 0,
{
}

} // verus!
