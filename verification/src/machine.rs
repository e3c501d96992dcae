//! The tap/hold remap state machine.
//!
//! The machine is fed one input at a time — a keyboard event, a debounce
//! timer firing, or a timer completion drained by the event loop — and
//! answers with the actions the caller must perform on the device channel.
//! A ghost trace records every synthesized event, so the no-stuck-key
//! discipline can be stated and proved: after the shutdown drain, no key
//! this process pressed is still logically down.

use vstd::prelude::*;

use crate::events::{down_ev, up_ev, KeyAction, KeyEvent, OutAction, SynthEvent};
use crate::events::{CAPS_LOCK, ESCAPE, LEFT_CTRL};
use crate::registry::{no_dups, seq_insert, PendingRegistry};

verus! {

/// The authoritative remap state: is the physical key up, down with the
/// tap/hold decision still open, or held past the threshold?
#[derive(Clone, Copy, PartialEq, Eq, Structural, Debug)]
pub enum RemapState {
    Idle,
    Pressed,
    Holding,
}

/// What a debounce timer's check-then-act attempt decided.
#[derive(Clone, Copy, PartialEq, Eq, Structural, Debug)]
pub enum FireOutcome {
    /// The state was still `Pressed`: the machine moved to `Holding`.
    Applied,
    /// The key was released (or remapping left `Pressed` otherwise)
    /// before the threshold: the completion is a no-op.
    Superseded,
}

/// Mathematical model of the remapper: the state, the registry contents
/// in insertion order, and the trace of all synthesized events so far.
pub struct Model {
    pub state: RemapState,
    pub pending: Seq<(u16, i32)>,
    pub trace: Seq<SynthEvent>,
}

/// The model of a freshly started remapper.
pub open spec fn init_model() -> Model {
    Model { state: RemapState::Idle, pending: Seq::empty(), trace: Seq::empty() }
}

/// After `trace`, is (code, device) logically down: the most recent
/// synthesized event for that key on that device is a Down.
pub open spec fn key_down_at_end(trace: Seq<SynthEvent>, code: u16, device: i32) -> bool
    decreases trace.len(),
{
    if trace.len() == 0 {
        false
    } else if trace.last().code == code && trace.last().device == device {
        trace.last().action == KeyAction::Down
    } else {
        key_down_at_end(trace.drop_last(), code, device)
    }
}

/// The machine's invariant: the registry holds no duplicates, and a pair
/// is registered exactly when its key is logically down at trace end.
pub open spec fn model_inv(m: Model) -> bool {
    &&& no_dups(m.pending)
    &&& forall|code: u16, device: i32|
        #![trigger m.pending.contains((code, device))]
        #![trigger key_down_at_end(m.trace, code, device)]
        m.pending.contains((code, device)) <==> key_down_at_end(m.trace, code, device)
}

/// The transition table for one keyboard event. When the event is not the
/// remapped key, or the pause flag is set, the event is forwarded verbatim
/// and the machine is untouched. Otherwise the Idle/Pressed/Holding table
/// applies; an Up in Idle is unreachable in practice and is swallowed.
pub open spec fn spec_step(m: Model, ev: KeyEvent, paused: bool) -> (Model, Seq<OutAction>) {
    if ev.code != CAPS_LOCK || paused {
        (m, seq![OutAction::Forward(ev)])
    } else {
        match (ev.action, m.state) {
            (KeyAction::Down, RemapState::Idle) => (
                Model { state: RemapState::Pressed, pending: m.pending, trace: m.trace },
                seq![OutAction::StartTimer(ev.device)],
            ),
            (KeyAction::Down, RemapState::Pressed) => (
                Model {
                    state: m.state,
                    pending: seq_insert(m.pending, (ESCAPE, ev.device)),
                    trace: m.trace.push(down_ev(ESCAPE, ev.device)),
                },
                seq![OutAction::Synth(down_ev(ESCAPE, ev.device))],
            ),
            (KeyAction::Down, RemapState::Holding) => (
                Model {
                    state: m.state,
                    pending: seq_insert(m.pending, (LEFT_CTRL, ev.device)),
                    trace: m.trace.push(down_ev(LEFT_CTRL, ev.device)),
                },
                seq![OutAction::Synth(down_ev(LEFT_CTRL, ev.device))],
            ),
            (KeyAction::Up, RemapState::Pressed) => (
                Model {
                    state: RemapState::Idle,
                    pending: m.pending.remove_value((ESCAPE, ev.device)),
                    trace: m.trace.push(down_ev(ESCAPE, ev.device)).push(up_ev(ESCAPE, ev.device)),
                },
                seq![
                    OutAction::Synth(down_ev(ESCAPE, ev.device)),
                    OutAction::Synth(up_ev(ESCAPE, ev.device)),
                ],
            ),
            (KeyAction::Up, RemapState::Holding) => (
                Model {
                    state: RemapState::Idle,
                    pending: m.pending.remove_value((LEFT_CTRL, ev.device)),
                    trace: m.trace.push(up_ev(LEFT_CTRL, ev.device)),
                },
                seq![OutAction::Synth(up_ev(LEFT_CTRL, ev.device))],
            ),
            (KeyAction::Up, RemapState::Idle) => (m, Seq::empty()),
        }
    }
}

/// A debounce timer firing: only if the state is still `Pressed` does the
/// machine move to `Holding`; otherwise the completion was superseded.
pub open spec fn spec_fire(m: Model) -> (Model, FireOutcome) {
    if m.state == RemapState::Pressed {
        (
            Model { state: RemapState::Holding, pending: m.pending, trace: m.trace },
            FireOutcome::Applied,
        )
    } else {
        (m, FireOutcome::Superseded)
    }
}

/// The event loop draining an applied completion: if the machine is still
/// `Holding`, assert Control down on the device the timer was started for.
pub open spec fn spec_complete(m: Model, device: i32) -> (Model, Seq<OutAction>) {
    if m.state == RemapState::Holding {
        (
            Model {
                state: m.state,
                pending: seq_insert(m.pending, (LEFT_CTRL, device)),
                trace: m.trace.push(down_ev(LEFT_CTRL, device)),
            },
            seq![OutAction::Synth(down_ev(LEFT_CTRL, device))],
        )
    } else {
        (m, Seq::empty())
    }
}

/// The synthesized key-ups that release every registered pair, in order.
pub open spec fn release_events(p: Seq<(u16, i32)>) -> Seq<SynthEvent>
    decreases p.len(),
{
    if p.len() == 0 {
        Seq::empty()
    } else {
        release_events(p.drop_last()).push(up_ev(p.last().0, p.last().1))
    }
}

/// The same releases as device-channel actions.
pub open spec fn release_actions(p: Seq<(u16, i32)>) -> Seq<OutAction> {
    release_events(p).map_values(|e: SynthEvent| OutAction::Synth(e))
}

/// The shutdown drain: send an Up for every registered pair, then clear.
pub open spec fn spec_drain(m: Model) -> (Model, Seq<OutAction>) {
    (
        Model {
            state: m.state,
            pending: Seq::empty(),
            trace: m.trace + release_events(m.pending),
        },
        release_actions(m.pending),
    )
}

pub proof fn lemma_down_at_end_push(trace: Seq<SynthEvent>, e: SynthEvent, code: u16, device: i32)
    ensures
        key_down_at_end(trace.push(e), code, device) == (if e.code == code && e.device == device {
            e.action == KeyAction::Down
        } else {
            key_down_at_end(trace, code, device)
        }),
{
    assert(trace.push(e).drop_last() =~= trace);
}

/// Every remap input preserves the machine's invariant.
pub proof fn lemma_step_preserves_inv(m: Model, ev: KeyEvent, paused: bool)
    requires
        model_inv(m),
    ensures
        model_inv(spec_step(m, ev, paused).0),
{
    if ev.code != CAPS_LOCK || paused {
        return ;
    }
    match (ev.action, m.state) {
        (KeyAction::Down, RemapState::Pressed) => {
            lemma_assert_down_preserves_inv(m, ESCAPE, ev.device);
        },
        (KeyAction::Down, RemapState::Holding) => {
            lemma_assert_down_preserves_inv(m, LEFT_CTRL, ev.device);
        },
        (KeyAction::Up, RemapState::Pressed) => {
            let m1 = spec_step(m, ev, paused).0;
            crate::registry::lemma_remove_value_unique(m.pending, (ESCAPE, ev.device));
            assert forall|code: u16, device: i32|
                m1.pending.contains((code, device)) <==> key_down_at_end(
                    m1.trace,
                    code,
                    device,
                ) by {
                lemma_down_at_end_push(m.trace, down_ev(ESCAPE, ev.device), code, device);
                lemma_down_at_end_push(
                    m.trace.push(down_ev(ESCAPE, ev.device)),
                    up_ev(ESCAPE, ev.device),
                    code,
                    device,
                );
            }
        },
        (KeyAction::Up, RemapState::Holding) => {
            let m1 = spec_step(m, ev, paused).0;
            crate::registry::lemma_remove_value_unique(m.pending, (LEFT_CTRL, ev.device));
            assert forall|code: u16, device: i32|
                m1.pending.contains((code, device)) <==> key_down_at_end(
                    m1.trace,
                    code,
                    device,
                ) by {
                lemma_down_at_end_push(m.trace, up_ev(LEFT_CTRL, ev.device), code, device);
            }
        },
        _ => {},
    }
}

/// Shared case: a synthesized Down for (code, device) is sent and recorded.
proof fn lemma_assert_down_preserves_inv(m: Model, code: u16, device: i32)
    requires
        model_inv(m),
    ensures
        no_dups(seq_insert(m.pending, (code, device))),
        forall|c: u16, d: i32|
            seq_insert(m.pending, (code, device)).contains((c, d)) <==> key_down_at_end(
                m.trace.push(down_ev(code, device)),
                c,
                d,
            ),
{
    crate::registry::lemma_insert_no_dups(m.pending, (code, device));
    assert forall|c: u16, d: i32|
        seq_insert(m.pending, (code, device)).contains((c, d)) <==> key_down_at_end(
            m.trace.push(down_ev(code, device)),
            c,
            d,
        ) by {
        crate::registry::lemma_insert_contains(m.pending, (code, device), (c, d));
        lemma_down_at_end_push(m.trace, down_ev(code, device), c, d);
    }
}

/// A timer firing preserves the invariant (it only moves the state).
pub proof fn lemma_fire_preserves_inv(m: Model)
    requires
        model_inv(m),
    ensures
        model_inv(spec_fire(m).0),
{
}

/// Draining a timer completion preserves the invariant.
pub proof fn lemma_complete_preserves_inv(m: Model, device: i32)
    requires
        model_inv(m),
    ensures
        model_inv(spec_complete(m, device).0),
{
    if m.state == RemapState::Holding {
        lemma_assert_down_preserves_inv(m, LEFT_CTRL, device);
    }
}

pub proof fn lemma_release_events_pointwise(p: Seq<(u16, i32)>)
    ensures
        release_events(p).len() == p.len(),
        forall|i: int|
            0 <= i < p.len() ==> #[trigger] release_events(p)[i] == up_ev(p[i].0, p[i].1),
    decreases p.len(),
{
    if p.len() > 0 {
        lemma_release_events_pointwise(p.drop_last());
    }
}

/// Appending only key-ups to a trace: a key is down at the end exactly
/// when it was down before and none of the appended ups releases it.
pub proof fn lemma_down_at_end_append_ups(
    t: Seq<SynthEvent>,
    ups: Seq<SynthEvent>,
    code: u16,
    device: i32,
)
    requires
        forall|i: int| 0 <= i < ups.len() ==> #[trigger] ups[i].action == KeyAction::Up,
    ensures
        key_down_at_end(t + ups, code, device) == (key_down_at_end(t, code, device) && !(
        exists|i: int|
            0 <= i < ups.len() && #[trigger] ups[i].code == code && ups[i].device == device)),
    decreases ups.len(),
{
    if ups.len() == 0 {
        assert(t + ups =~= t);
    } else {
        let u = ups.drop_last();
        let e = ups.last();
        assert(t + ups =~= (t + u).push(e));
        lemma_down_at_end_push(t + u, e, code, device);
        lemma_down_at_end_append_ups(t, u, code, device);
        if e.code == code && e.device == device {
            assert(ups[ups.len() - 1].code == code && ups[ups.len() - 1].device == device);
        } else {
            if exists|i: int|
                0 <= i < ups.len() && #[trigger] ups[i].code == code && ups[i].device == device {
                let i = choose|i: int|
                    0 <= i < ups.len() && #[trigger] ups[i].code == code && ups[i].device
                        == device;
                assert(i < u.len());
                assert(u[i].code == code && u[i].device == device);
            }
            if exists|i: int|
                0 <= i < u.len() && #[trigger] u[i].code == code && u[i].device == device {
                let i = choose|i: int|
                    0 <= i < u.len() && #[trigger] u[i].code == code && u[i].device == device;
                assert(ups[i].code == code && ups[i].device == device);
            }
        }
    }
}

/// After the shutdown drain, the registry is empty and no synthesized key
/// is left logically down anywhere in the trace.
pub proof fn lemma_drain_all_released(m: Model)
    requires
        model_inv(m),
    ensures
        spec_drain(m).0.pending.len() == 0,
        forall|code: u16, device: i32|
            !key_down_at_end(spec_drain(m).0.trace, code, device),
        model_inv(spec_drain(m).0),
{
    lemma_release_events_pointwise(m.pending);
    assert forall|code: u16, device: i32|
        !key_down_at_end(m.trace + release_events(m.pending), code, device) by {
        let ups = release_events(m.pending);
        assert forall|i: int| 0 <= i < ups.len() implies #[trigger] ups[i].action
            == KeyAction::Up by {
            assert(ups[i] == up_ev(m.pending[i].0, m.pending[i].1));
        }
        lemma_down_at_end_append_ups(m.trace, ups, code, device);
        if key_down_at_end(m.trace, code, device) {
            assert(m.pending.contains((code, device)));
            let j = choose|j: int| 0 <= j < m.pending.len() && m.pending[j] == (code, device);
            assert(ups[j] == up_ev(code, device));
            assert(ups[j].code == code && ups[j].device == device);
        }
    }
}

/// In `trace`, the synthesized Down at index `i` is matched: a later
/// synthesized Up releases the same key on the same device.
pub open spec fn down_matched_later(trace: Seq<SynthEvent>, i: int) -> bool {
    exists|j: int|
        i < j < trace.len() && #[trigger] trace[j].code == trace[i].code && trace[j].device
            == trace[i].device && trace[j].action == KeyAction::Up
}

/// When a key is not down at the end of the trace, every synthesized
/// Down of that key has a matching later synthesized Up.
pub proof fn lemma_every_down_matched(trace: Seq<SynthEvent>, i: int)
    requires
        0 <= i < trace.len(),
        trace[i].action == KeyAction::Down,
        !key_down_at_end(trace, trace[i].code, trace[i].device),
    ensures
        down_matched_later(trace, i),
    decreases trace.len(),
{
    let c = trace[i].code;
    let d = trace[i].device;
    let e = trace.last();
    if e.code == c && e.device == d {
        assert(e.action == KeyAction::Up);
        assert(i < trace.len() - 1);
        assert(trace[trace.len() - 1].code == c && trace[trace.len() - 1].device == d
            && trace[trace.len() - 1].action == KeyAction::Up);
    } else {
        assert(i < trace.len() - 1);
        let t = trace.drop_last();
        assert(t[i] == trace[i]);
        lemma_every_down_matched(t, i);
        let j = choose|j: int|
            i < j < t.len() && #[trigger] t[j].code == t[i].code && t[j].device == t[i].device
                && t[j].action == KeyAction::Up;
        assert(trace[j].code == c && trace[j].device == d && trace[j].action == KeyAction::Up);
    }
}

/// The executable remapper: the state, the pending-synthesis registry,
/// and the ghost trace of everything it has told its caller to inject.
pub struct Remapper {
    state: RemapState,
    pending: PendingRegistry,
    trace: Ghost<Seq<SynthEvent>>,
}

impl View for Remapper {
    type V = Model;

    closed spec fn view(&self) -> Model {
        Model { state: self.state, pending: self.pending@, trace: self.trace@ }
    }
}

impl Remapper {
    pub open spec fn wf(&self) -> bool {
        model_inv(self@)
    }

    pub fn new() -> (r: Remapper)
        ensures
            r@ == init_model(),
            r.wf(),
    {
        let r = Remapper {
            state: RemapState::Idle,
            pending: PendingRegistry::new(),
            trace: Ghost(Seq::empty()),
        };
        r
    }

    /// The current state, for callers that schedule or report.
    pub fn current_state(&self) -> (s: RemapState)
        ensures
            s == self@.state,
    {
        self.state
    }

    /// How many synthesized downs are still unmatched.
    pub fn pending_count(&self) -> (n: usize)
        ensures
            n == self@.pending.len(),
    {
        self.pending.len()
    }

    /// Whether a synthesized down for (code, device) is still unmatched.
    pub fn pending_contains(&self, code: u16, device: i32) -> (r: bool)
        ensures
            r == self@.pending.contains((code, device)),
    {
        self.pending.contains(code, device)
    }

    /// Drive the machine with one keyboard event; `paused` is the pause
    /// flag sampled by the event loop. Returns the actions to perform,
    /// in order, exactly as the transition table prescribes.
    pub fn on_event(&mut self, ev: KeyEvent, paused: bool) -> (out: Vec<OutAction>)
        requires
            old(self).wf(),
        ensures
            final(self).wf(),
            final(self)@ == spec_step(old(self)@, ev, paused).0,
            out@ == spec_step(old(self)@, ev, paused).1,
    {
        proof {
            lemma_step_preserves_inv(old(self)@, ev, paused);
        }
        let mut out: Vec<OutAction> = Vec::new();
        if ev.code != CAPS_LOCK || paused {
            out.push(OutAction::Forward(ev));
            proof {
                assert(out@ =~= seq![OutAction::Forward(ev)]);
            }
            return out;
        }
        match (ev.action, self.state) {
            (KeyAction::Down, RemapState::Idle) => {
                self.state = RemapState::Pressed;
                out.push(OutAction::StartTimer(ev.device));
                proof {
                    assert(out@ =~= seq![OutAction::StartTimer(ev.device)]);
                }
            },
            (KeyAction::Down, RemapState::Pressed) => {
                let e = SynthEvent { code: ESCAPE, action: KeyAction::Down, device: ev.device };
                self.pending.record(ESCAPE, ev.device);
                self.trace = Ghost(self.trace@.push(e));
                out.push(OutAction::Synth(e));
                proof {
                    assert(out@ =~= seq![OutAction::Synth(down_ev(ESCAPE, ev.device))]);
                }
            },
            (KeyAction::Down, RemapState::Holding) => {
                let e = SynthEvent { code: LEFT_CTRL, action: KeyAction::Down, device: ev.device };
                self.pending.record(LEFT_CTRL, ev.device);
                self.trace = Ghost(self.trace@.push(e));
                out.push(OutAction::Synth(e));
                proof {
                    assert(out@ =~= seq![OutAction::Synth(down_ev(LEFT_CTRL, ev.device))]);
                }
            },
            (KeyAction::Up, RemapState::Pressed) => {
                let ed = SynthEvent { code: ESCAPE, action: KeyAction::Down, device: ev.device };
                let eu = SynthEvent { code: ESCAPE, action: KeyAction::Up, device: ev.device };
                self.pending.release(ESCAPE, ev.device);
                self.trace = Ghost(self.trace@.push(ed).push(eu));
                self.state = RemapState::Idle;
                out.push(OutAction::Synth(ed));
                out.push(OutAction::Synth(eu));
                proof {
                    assert(out@ =~= seq![
                        OutAction::Synth(down_ev(ESCAPE, ev.device)),
                        OutAction::Synth(up_ev(ESCAPE, ev.device)),
                    ]);
                }
            },
            (KeyAction::Up, RemapState::Holding) => {
                let eu = SynthEvent { code: LEFT_CTRL, action: KeyAction::Up, device: ev.device };
                self.pending.release(LEFT_CTRL, ev.device);
                self.trace = Ghost(self.trace@.push(eu));
                self.state = RemapState::Idle;
                out.push(OutAction::Synth(eu));
                proof {
                    assert(out@ =~= seq![OutAction::Synth(up_ev(LEFT_CTRL, ev.device))]);
                }
            },
            (KeyAction::Up, RemapState::Idle) => {
                proof {
                    assert(out@ =~= Seq::<OutAction>::empty());
                }
            },
        }
        out
    }

    /// A debounce timer's check-then-act attempt, run under the state lock:
    /// move to `Holding` only if the tap/hold decision is still open.
    pub fn on_timer_fire(&mut self) -> (r: FireOutcome)
        requires
            old(self).wf(),
        ensures
            final(self).wf(),
            final(self)@ == spec_fire(old(self)@).0,
            r == spec_fire(old(self)@).1,
    {
        match self.state {
            RemapState::Pressed => {
                self.state = RemapState::Holding;
                FireOutcome::Applied
            },
            _ => FireOutcome::Superseded,
        }
    }

    /// The event loop draining an applied completion for `device`:
    /// if the machine still holds, assert Control down on that device.
    pub fn on_timer_complete(&mut self, device: i32) -> (out: Vec<OutAction>)
        requires
            old(self).wf(),
        ensures
            final(self).wf(),
            final(self)@ == spec_complete(old(self)@, device).0,
            out@ == spec_complete(old(self)@, device).1,
    {
        proof {
            lemma_complete_preserves_inv(old(self)@, device);
        }
        let mut out: Vec<OutAction> = Vec::new();
        match self.state {
            RemapState::Holding => {
                let e = SynthEvent { code: LEFT_CTRL, action: KeyAction::Down, device };
                self.pending.record(LEFT_CTRL, device);
                self.trace = Ghost(self.trace@.push(e));
                out.push(OutAction::Synth(e));
                proof {
                    assert(out@ =~= seq![OutAction::Synth(down_ev(LEFT_CTRL, device))]);
                }
            },
            _ => {
                proof {
                    assert(out@ =~= Seq::<OutAction>::empty());
                }
            },
        }
        out
    }

    /// The shutdown drain: one synthesized Up per registered pair, in
    /// registration order, and the registry left empty. After it, no key
    /// this process pressed is still logically down.
    pub fn drain_pending(&mut self) -> (out: Vec<OutAction>)
        requires
            old(self).wf(),
        ensures
            final(self).wf(),
            final(self)@ == spec_drain(old(self)@).0,
            out@ == spec_drain(old(self)@).1,
            final(self)@.pending.len() == 0,
            forall|code: u16, device: i32| !key_down_at_end(final(self)@.trace, code, device),
    {
        let ghost m0 = self@;
        let mut out: Vec<OutAction> = Vec::new();
        let n = self.pending.len();
        let mut i: usize = 0;
        while i < n
            invariant
                self@ == m0,
                n == self@.pending.len(),
                i <= n,
                out@.len() == i,
                forall|j: int|
                    0 <= j < i ==> out@[j] == OutAction::Synth(
                        up_ev(m0.pending[j].0, m0.pending[j].1),
                    ),
            decreases n - i,
        {
            let e = self.pending.get(i);
            out.push(OutAction::Synth(SynthEvent { code: e.0, action: KeyAction::Up, device: e.1 }));
            i = i + 1;
        }
        proof {
            lemma_release_events_pointwise(m0.pending);
            assert(out@ =~= release_actions(m0.pending));
            lemma_drain_all_released(m0);
        }
        self.trace = Ghost(self.trace@ + release_events(m0.pending));
        self.pending.clear();
        out
    }
}

} // verus!
