use key_remap::events::{
    KeyAction, KeyEvent, OutAction, SynthEvent, CAPS_LOCK, DEFAULT_THRESHOLD_MS, ESCAPE, LEFT_CTRL,
};
use key_remap::machine::{FireOutcome, RemapState, Remapper};

fn caps(action: KeyAction, device: i32) -> KeyEvent {
    KeyEvent { code: CAPS_LOCK, action, device, info: 0 }
}

fn synth(code: u16, action: KeyAction, device: i32) -> OutAction {
    OutAction::Synth(SynthEvent { code, action, device })
}

#[test]
fn tap_emits_escape_pair() {
    let mut r = Remapper::new();
    let out = r.on_event(caps(KeyAction::Down, 1), false);
    assert_eq!(out, vec![OutAction::StartTimer(1)]);
    assert_eq!(r.current_state(), RemapState::Pressed);
    let out = r.on_event(caps(KeyAction::Up, 1), false);
    assert_eq!(
        out,
        vec![
            synth(ESCAPE, KeyAction::Down, 1),
            synth(ESCAPE, KeyAction::Up, 1)
        ]
    );
    assert_eq!(r.current_state(), RemapState::Idle);
    assert_eq!(r.pending_count(), 0);
}

#[test]
fn hold_emits_ctrl_down_then_up() {
    let mut r = Remapper::new();
    let out = r.on_event(caps(KeyAction::Down, 1), false);
    assert_eq!(out, vec![OutAction::StartTimer(1)]);
    assert_eq!(r.on_timer_fire(), FireOutcome::Applied);
    assert_eq!(r.current_state(), RemapState::Holding);
    let out = r.on_timer_complete(1);
    assert_eq!(out, vec![synth(LEFT_CTRL, KeyAction::Down, 1)]);
    assert!(r.pending_contains(LEFT_CTRL, 1));
    let out = r.on_event(caps(KeyAction::Up, 1), false);
    assert_eq!(out, vec![synth(LEFT_CTRL, KeyAction::Up, 1)]);
    assert_eq!(r.current_state(), RemapState::Idle);
    assert_eq!(r.pending_count(), 0);
}

#[test]
fn hold_sequence_emits_no_escape() {
    let mut r = Remapper::new();
    let mut all: Vec<OutAction> = Vec::new();
    all.extend(r.on_event(caps(KeyAction::Down, 1), false));
    r.on_timer_fire();
    all.extend(r.on_timer_complete(1));
    all.extend(r.on_event(caps(KeyAction::Up, 1), false));
    for a in &all {
        if let OutAction::Synth(e) = a {
            assert_ne!(e.code, ESCAPE);
        }
    }
}

#[test]
fn pass_through_other_keys() {
    let mut r = Remapper::new();
    let ev = KeyEvent { code: 0x1E, action: KeyAction::Down, device: 3, info: 0xDEAD };
    let out = r.on_event(ev, false);
    assert_eq!(out, vec![OutAction::Forward(ev)]);
    assert_eq!(r.current_state(), RemapState::Idle);

    // Unchanged whatever the state: enter Pressed, then forward again.
    r.on_event(caps(KeyAction::Down, 3), false);
    let ev2 = KeyEvent { code: 0x2A, action: KeyAction::Up, device: 3, info: 7 };
    let out = r.on_event(ev2, false);
    assert_eq!(out, vec![OutAction::Forward(ev2)]);
    assert_eq!(r.current_state(), RemapState::Pressed);

    // And whatever the pause flag.
    let out = r.on_event(ev, true);
    assert_eq!(out, vec![OutAction::Forward(ev)]);
}

#[test]
fn pause_forwards_caps_unchanged() {
    let mut r = Remapper::new();
    let down = caps(KeyAction::Down, 1);
    let up = caps(KeyAction::Up, 1);
    let out = r.on_event(down, true);
    assert_eq!(out, vec![OutAction::Forward(down)]);
    assert_eq!(r.current_state(), RemapState::Idle);
    let out = r.on_event(up, true);
    assert_eq!(out, vec![OutAction::Forward(up)]);
    assert_eq!(r.current_state(), RemapState::Idle);
    assert_eq!(r.pending_count(), 0);
}

#[test]
fn drain_releases_held_ctrl() {
    let mut r = Remapper::new();
    r.on_event(caps(KeyAction::Down, 1), false);
    r.on_timer_fire();
    r.on_timer_complete(1);
    assert_eq!(r.pending_count(), 1);
    let out = r.drain_pending();
    assert_eq!(out, vec![synth(LEFT_CTRL, KeyAction::Up, 1)]);
    assert_eq!(r.pending_count(), 0);
}

#[test]
fn drain_releases_pending_escape() {
    let mut r = Remapper::new();
    r.on_event(caps(KeyAction::Down, 2), false);
    // Key repeat while the tap/hold decision is open: Escape-Down goes out
    // and is recorded.
    let out = r.on_event(caps(KeyAction::Down, 2), false);
    assert_eq!(out, vec![synth(ESCAPE, KeyAction::Down, 2)]);
    assert!(r.pending_contains(ESCAPE, 2));
    let out = r.drain_pending();
    assert_eq!(out, vec![synth(ESCAPE, KeyAction::Up, 2)]);
    assert_eq!(r.pending_count(), 0);
}

#[test]
fn drain_on_empty_registry_sends_nothing() {
    let mut r = Remapper::new();
    let out = r.drain_pending();
    assert_eq!(out, Vec::new());
    assert_eq!(r.pending_count(), 0);
}

#[test]
fn key_repeat_in_holding_is_idempotent() {
    let mut r = Remapper::new();
    r.on_event(caps(KeyAction::Down, 1), false);
    r.on_timer_fire();
    r.on_timer_complete(1);
    assert_eq!(r.pending_count(), 1);
    // Two key repeats: each re-emits Control-Down, never a Control-Up,
    // and the registry keeps a single entry for the pair.
    for _ in 0..2 {
        let out = r.on_event(caps(KeyAction::Down, 1), false);
        assert_eq!(out, vec![synth(LEFT_CTRL, KeyAction::Down, 1)]);
        assert_eq!(r.pending_count(), 1);
        assert!(r.pending_contains(LEFT_CTRL, 1));
    }
    assert_eq!(r.current_state(), RemapState::Holding);
}

#[test]
fn cross_device_up_ends_hold() {
    let mut r = Remapper::new();
    // Hold in progress on device 1.
    r.on_event(caps(KeyAction::Down, 1), false);
    r.on_timer_fire();
    r.on_timer_complete(1);
    // The state is shared across devices: an Up on device 2 ends the hold
    // and emits Control-Up on device 2, while device 1's Control stays
    // registered until the drain.
    let out = r.on_event(caps(KeyAction::Up, 2), false);
    assert_eq!(out, vec![synth(LEFT_CTRL, KeyAction::Up, 2)]);
    assert_eq!(r.current_state(), RemapState::Idle);
    assert_eq!(r.pending_count(), 1);
    assert!(r.pending_contains(LEFT_CTRL, 1));
    let out = r.drain_pending();
    assert_eq!(out, vec![synth(LEFT_CTRL, KeyAction::Up, 1)]);
    assert_eq!(r.pending_count(), 0);
}

#[test]
fn up_in_idle_is_swallowed() {
    let mut r = Remapper::new();
    let out = r.on_event(caps(KeyAction::Up, 1), false);
    assert_eq!(out, Vec::new());
    assert_eq!(r.current_state(), RemapState::Idle);
}

#[test]
fn fire_after_release_is_superseded() {
    let mut r = Remapper::new();
    r.on_event(caps(KeyAction::Down, 1), false);
    r.on_event(caps(KeyAction::Up, 1), false);
    // The timer races the release and loses: its firing is a no-op.
    assert_eq!(r.on_timer_fire(), FireOutcome::Superseded);
    assert_eq!(r.current_state(), RemapState::Idle);
}

#[test]
fn fire_in_idle_is_superseded() {
    let mut r = Remapper::new();
    assert_eq!(r.on_timer_fire(), FireOutcome::Superseded);
    assert_eq!(r.current_state(), RemapState::Idle);
}

#[test]
fn completion_when_not_holding_is_noop() {
    let mut r = Remapper::new();
    r.on_event(caps(KeyAction::Down, 1), false);
    // The completion is drained but the state never reached Holding.
    let out = r.on_timer_complete(1);
    assert_eq!(out, Vec::new());
    assert_eq!(r.current_state(), RemapState::Pressed);
    assert_eq!(r.pending_count(), 0);
}

#[test]
fn holds_on_two_devices_both_drained() {
    let mut r = Remapper::new();
    // Hold on device 1, then — the shared state having gone back to Idle
    // only via a release — a second hold on device 5.
    r.on_event(caps(KeyAction::Down, 1), false);
    r.on_timer_fire();
    r.on_timer_complete(1);
    r.on_event(caps(KeyAction::Up, 2), false);
    r.on_event(caps(KeyAction::Down, 5), false);
    r.on_timer_fire();
    r.on_timer_complete(5);
    assert_eq!(r.pending_count(), 2);
    let out = r.drain_pending();
    assert_eq!(
        out,
        vec![
            synth(LEFT_CTRL, KeyAction::Up, 1),
            synth(LEFT_CTRL, KeyAction::Up, 5)
        ]
    );
    assert_eq!(r.pending_count(), 0);
}

#[test]
fn threshold_default_is_ninety_ms() {
    assert_eq!(DEFAULT_THRESHOLD_MS, 90);
}

#[test]
fn scan_codes_match_the_driver() {
    assert_eq!(CAPS_LOCK, 0x3A);
    assert_eq!(ESCAPE, 0x01);
    assert_eq!(LEFT_CTRL, 0x1D);
}
