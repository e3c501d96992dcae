//! The laws the remapper obeys, stated over the model and proved once.

use vstd::prelude::*;

use crate::events::{down_ev, up_ev, KeyAction, KeyEvent, OutAction};
use crate::events::{CAPS_LOCK, ESCAPE, LEFT_CTRL};
use crate::machine::{
    down_matched_later, init_model, key_down_at_end, lemma_complete_preserves_inv,
    lemma_drain_all_released, lemma_every_down_matched, lemma_fire_preserves_inv,
    lemma_step_preserves_inv, model_inv, spec_complete, spec_drain, spec_fire, spec_step,
    FireOutcome, Model, RemapState,
};
use crate::registry::{lemma_no_dups_count, pair_count};

verus! {

/// One input consumed by the event loop in one iteration: a keyboard
/// event together with the pause flag it was sampled under, a debounce
/// timer's check-then-act firing, or a drained timer completion.
pub enum LoopInput {
    Key(KeyEvent, bool),
    TimerFire,
    TimerComplete(i32),
}

/// The model after one loop input.
pub open spec fn apply_input(m: Model, inp: LoopInput) -> Model {
    match inp {
        LoopInput::Key(ev, paused) => spec_step(m, ev, paused).0,
        LoopInput::TimerFire => spec_fire(m).0,
        LoopInput::TimerComplete(device) => spec_complete(m, device).0,
    }
}

/// The model after a whole sequence of loop inputs.
pub open spec fn run(m: Model, inputs: Seq<LoopInput>) -> Model
    decreases inputs.len(),
{
    if inputs.len() == 0 {
        m
    } else {
        apply_input(run(m, inputs.drop_last()), inputs.last())
    }
}

/// A freshly started machine satisfies the invariant.
pub proof fn lemma_init_inv()
    ensures
        model_inv(init_model()),
{
}

/// Every single loop input preserves the invariant.
pub proof fn lemma_apply_preserves_inv(m: Model, inp: LoopInput)
    requires
        model_inv(m),
    ensures
        model_inv(apply_input(m, inp)),
{
    match inp {
        LoopInput::Key(ev, paused) => lemma_step_preserves_inv(m, ev, paused),
        LoopInput::TimerFire => lemma_fire_preserves_inv(m),
        LoopInput::TimerComplete(device) => lemma_complete_preserves_inv(m, device),
    }
}

/// Every sequence of loop inputs preserves the invariant.
pub proof fn lemma_run_preserves_inv(m: Model, inputs: Seq<LoopInput>)
    requires
        model_inv(m),
    ensures
        model_inv(run(m, inputs)),
    decreases inputs.len(),
{
    if inputs.len() > 0 {
        lemma_run_preserves_inv(m, inputs.drop_last());
        lemma_apply_preserves_inv(run(m, inputs.drop_last()), inputs.last());
    }
}

/// Tap law: from a quiescent machine, a Down then an Up on the remapped
/// key — with no timer completion in between, which is how a release
/// inside the threshold presents itself to the machine — produce exactly
/// Escape-Down then Escape-Up on that device, return the state to Idle,
/// and leave no entry in the pending-synthesis registry.
pub proof fn lemma_tap_law(m: Model, down: KeyEvent, up: KeyEvent)
    requires
        m.state == RemapState::Idle,
        m.pending == Seq::<(u16, i32)>::empty(),
        down.code == CAPS_LOCK,
        down.action == KeyAction::Down,
        up.code == CAPS_LOCK,
        up.action == KeyAction::Up,
        up.device == down.device,
    ensures
        ({
            let (m1, a1) = spec_step(m, down, false);
            let (m2, a2) = spec_step(m1, up, false);
            &&& a1 == seq![OutAction::StartTimer(down.device)]
            &&& a2 == seq![
                OutAction::Synth(down_ev(ESCAPE, down.device)),
                OutAction::Synth(up_ev(ESCAPE, down.device)),
            ]
            &&& m2.state == RemapState::Idle
            &&& m2.pending == Seq::<(u16, i32)>::empty()
            &&& m2.trace == m.trace + seq![
                down_ev(ESCAPE, down.device),
                up_ev(ESCAPE, down.device),
            ]
        }),
{
    let d = down.device;
    let (m1, a1) = spec_step(m, down, false);
    let (m2, a2) = spec_step(m1, up, false);
    m1.pending.index_of_first_ensures((ESCAPE, d));
    assert(m2.pending =~= Seq::<(u16, i32)>::empty());
    assert(m2.trace =~= m.trace + seq![down_ev(ESCAPE, d), up_ev(ESCAPE, d)]);
}

/// Hold law: from a quiescent machine, a Down on the remapped key, the
/// threshold elapsing (the timer fires and its completion is drained),
/// and a later Up produce exactly Control-Down at the threshold and one
/// Control-Up at release — and no Escape events at all — returning the
/// state to Idle with an empty registry.
pub proof fn lemma_hold_law(m: Model, down: KeyEvent, up: KeyEvent)
    requires
        m.state == RemapState::Idle,
        m.pending == Seq::<(u16, i32)>::empty(),
        down.code == CAPS_LOCK,
        down.action == KeyAction::Down,
        up.code == CAPS_LOCK,
        up.action == KeyAction::Up,
        up.device == down.device,
    ensures
        ({
            let (m1, a1) = spec_step(m, down, false);
            let (m2, r) = spec_fire(m1);
            let (m3, a3) = spec_complete(m2, down.device);
            let (m4, a4) = spec_step(m3, up, false);
            &&& a1 == seq![OutAction::StartTimer(down.device)]
            &&& r == FireOutcome::Applied
            &&& a3 == seq![OutAction::Synth(down_ev(LEFT_CTRL, down.device))]
            &&& a4 == seq![OutAction::Synth(up_ev(LEFT_CTRL, down.device))]
            &&& m4.state == RemapState::Idle
            &&& m4.pending == Seq::<(u16, i32)>::empty()
            &&& m4.trace == m.trace + seq![
                down_ev(LEFT_CTRL, down.device),
                up_ev(LEFT_CTRL, down.device),
            ]
        }),
{
    let d = down.device;
    let (m1, a1) = spec_step(m, down, false);
    let (m2, r) = spec_fire(m1);
    let (m3, a3) = spec_complete(m2, d);
    let (m4, a4) = spec_step(m3, up, false);
    assert(m3.pending =~= seq![(LEFT_CTRL, d)]);
    assert(m3.pending[0] == (LEFT_CTRL, d));
    m3.pending.index_of_first_ensures((LEFT_CTRL, d));
    let k = m3.pending.index_of_first((LEFT_CTRL, d)).unwrap();
    assert(k == 0);
    assert(m4.pending =~= Seq::<(u16, i32)>::empty());
    assert(m4.trace =~= m.trace + seq![down_ev(LEFT_CTRL, d), up_ev(LEFT_CTRL, d)]);
}

/// Pass-through law: an event whose code is not the remapped key is
/// forwarded unchanged and moves nothing, whatever the state and whatever
/// the pause flag.
pub proof fn lemma_pass_through_law(m: Model, ev: KeyEvent, paused: bool)
    requires
        ev.code != CAPS_LOCK,
    ensures
        spec_step(m, ev, paused).0 == m,
        spec_step(m, ev, paused).1 == seq![OutAction::Forward(ev)],
{
}

/// While paused, every event — the remapped key included — is forwarded
/// unchanged and the machine does not move.
pub proof fn lemma_pause_forwards(m: Model, ev: KeyEvent)
    ensures
        spec_step(m, ev, true).0 == m,
        spec_step(m, ev, true).1 == seq![OutAction::Forward(ev)],
{
}

/// Pause law: while paused, a Down/Up pair on the remapped key is
/// forwarded as raw events and the state never leaves Idle.
pub proof fn lemma_pause_law(m: Model, down: KeyEvent, up: KeyEvent)
    requires
        m.state == RemapState::Idle,
    ensures
        ({
            let (m1, a1) = spec_step(m, down, true);
            let (m2, a2) = spec_step(m1, up, true);
            &&& a1 == seq![OutAction::Forward(down)]
            &&& a2 == seq![OutAction::Forward(up)]
            &&& m1.state == RemapState::Idle
            &&& m2 == m
        }),
{
}

/// Idempotent re-assertion: a repeated Down while already Holding — key
/// repeat — re-emits Control-Down with no intervening Control-Up, and the
/// registry keeps exactly one entry for that (code, device) pair.
pub proof fn lemma_hold_reassert_law(m: Model, ev: KeyEvent)
    requires
        model_inv(m),
        m.state == RemapState::Holding,
        ev.code == CAPS_LOCK,
        ev.action == KeyAction::Down,
        m.pending.contains((LEFT_CTRL, ev.device)),
    ensures
        ({
            let (m1, a1) = spec_step(m, ev, false);
            &&& a1 == seq![OutAction::Synth(down_ev(LEFT_CTRL, ev.device))]
            &&& m1.state == RemapState::Holding
            &&& m1.pending == m.pending
            &&& pair_count(m1.pending, (LEFT_CTRL, ev.device)) == 1
        }),
{
    lemma_no_dups_count(m.pending, (LEFT_CTRL, ev.device));
}

/// The shared-state limitation across devices, characterized: the state
/// transition ignores which device produced an event — only the code, the
/// action and the pause flag matter.
pub proof fn lemma_state_ignores_device(m: Model, ev1: KeyEvent, ev2: KeyEvent, paused: bool)
    requires
        ev1.code == ev2.code,
        ev1.action == ev2.action,
    ensures
        spec_step(m, ev1, paused).0.state == spec_step(m, ev2, paused).0.state,
{
}

/// In particular, a hold in progress is observable and alterable from any
/// other device: while Holding, an Up of the remapped key on any device
/// ends the hold, emitting Control-Up on that device.
pub proof fn lemma_shared_state_across_devices(m: Model, up_b: KeyEvent)
    requires
        m.state == RemapState::Holding,
        up_b.code == CAPS_LOCK,
        up_b.action == KeyAction::Up,
    ensures
        spec_step(m, up_b, false).0.state == RemapState::Idle,
        spec_step(m, up_b, false).1 == seq![OutAction::Synth(up_ev(LEFT_CTRL, up_b.device))],
{
}

/// No-stuck-key: whatever inputs the loop consumed since start, a stop
/// request at any point is followed by the drain, after which the
/// registry is empty, no synthesized key is logically down at the end of
/// the output trace, and every synthesized Down in the trace has a
/// matching later synthesized Up of the same key on the same device.
pub proof fn lemma_no_stuck_key(inputs: Seq<LoopInput>)
    ensures
        ({
            let drained = spec_drain(run(init_model(), inputs)).0;
            &&& drained.pending.len() == 0
            &&& forall|code: u16, device: i32| !key_down_at_end(drained.trace, code, device)
            &&& forall|i: int|
                0 <= i < drained.trace.len() && #[trigger] drained.trace[i].action
                    == KeyAction::Down ==> down_matched_later(drained.trace, i)
        }),
{
    lemma_init_inv();
    lemma_run_preserves_inv(init_model(), inputs);
    lemma_drain_all_released(run(init_model(), inputs));
    let drained = spec_drain(run(init_model(), inputs)).0;
    assert forall|i: int|
        0 <= i < drained.trace.len() && #[trigger] drained.trace[i].action
            == KeyAction::Down implies down_matched_later(drained.trace, i) by {
        lemma_every_down_matched(drained.trace, i);
    }
}

} // verus!
