//! What a host tells the machine.

use vstd::prelude::*;

verus! {

#[derive(Debug, Clone, Copy, PartialEq, Eq, Structural)]
pub enum JoypadButton {
    Up,
    Down,
    Left,
    Right,
    A,
    B,
    Select,
    Start,
}

#[derive(Debug, Clone, Copy, PartialEq, Eq, Structural)]
pub enum JoypadEvent {
    Press(JoypadButton),
    Release(JoypadButton),
}

#[derive(Debug, Clone, Copy, PartialEq, Eq, Structural)]
pub enum EmulationSpeed {
    /// Authentic NES timing.
    Normal,
    /// This many times as fast.
    Fast(u32),
    Uncapped,
}

#[derive(Debug, Clone, Copy, PartialEq, Eq, Structural)]
pub enum HostEvent {
    Nothing,
    Reset,
    Shutdown,
    ChangeSpeed(EmulationSpeed),
}

/// The buttons that are down after these events, where those in `held` were down
/// before.
pub open spec fn held_after(held: Set<JoypadButton>, events: Seq<JoypadEvent>) -> Set<JoypadButton>
    decreases events.len(),
{
    if events.len() == 0 {
        held
    } else {
        match events.last() {
            JoypadEvent::Press(b) => held_after(held, events.drop_last()).insert(b),
            JoypadEvent::Release(b) => held_after(held, events.drop_last()).remove(b),
        }
    }
}

/// `button` is not let go from event `i` on.
pub open spec fn not_released(events: Seq<JoypadEvent>, i: int, button: JoypadButton) -> bool {
    forall|k: int| i <= k < events.len() ==> #[trigger] events[k] != JoypadEvent::Release(button)
}

/// A button is down exactly if it was pressed, or was down before, and has not been
/// let go since.
pub proof fn buttons_are_held_until_released(
    held: Set<JoypadButton>,
    events: Seq<JoypadEvent>,
    button: JoypadButton,
)
    ensures
        held_after(held, events).contains(button) <==> {
            ||| held.contains(button) && not_released(events, 0, button)
            ||| exists|j: int|
                0 <= j < events.len() && #[trigger] events[j] == JoypadEvent::Press(button)
                    && not_released(events, j, button)
        },
    decreases events.len(),
{
    if events.len() > 0 {
        let before = events.drop_last();
        let n = events.len() - 1;
        buttons_are_held_until_released(held, before, button);
        assert(forall|i: int| 0 <= i < n ==> #[trigger] before[i] == events[i]);
        assert forall|i: int| 0 <= i <= n implies (#[trigger] not_released(events, i, button)
            <==> not_released(before, i, button) && events[n] != JoypadEvent::Release(
            button,
        )) by {
            if not_released(events, i, button) {
                assert forall|k: int| i <= k < before.len() implies #[trigger] before[k]
                    != JoypadEvent::Release(button) by {
                    assert(before[k] == events[k]);
                }
                assert(events[n] != JoypadEvent::Release(button));
            }
            if not_released(before, i, button) && events[n] != JoypadEvent::Release(button) {
                assert forall|k: int| i <= k < events.len() implies #[trigger] events[k]
                    != JoypadEvent::Release(button) by {
                    if k < n {
                        assert(before[k] == events[k]);
                    }
                }
            }
        }
        assert(not_released(events, 0, button) <==> not_released(before, 0, button) && events[n]
            != JoypadEvent::Release(button));
        if exists|j: int|
            0 <= j < before.len() && #[trigger] before[j] == JoypadEvent::Press(button)
                && not_released(before, j, button) {
            let j = choose|j: int|
                0 <= j < before.len() && #[trigger] before[j] == JoypadEvent::Press(button)
                    && not_released(before, j, button);
            assert(events[j] == JoypadEvent::Press(button));
            assert(not_released(events, j, button) <==> events[n] != JoypadEvent::Release(button));
        }
        if exists|j: int|
            0 <= j < events.len() && #[trigger] events[j] == JoypadEvent::Press(button)
                && not_released(events, j, button) {
            let j = choose|j: int|
                0 <= j < events.len() && #[trigger] events[j] == JoypadEvent::Press(button)
                    && not_released(events, j, button);
            if j < n {
                assert(before[j] == JoypadEvent::Press(button));
                assert(not_released(before, j, button));
            }
            assert(events[n] != JoypadEvent::Release(button));
        }
        if events[n] == JoypadEvent::Press(button) {
            assert(not_released(events, n, button));
        }
    }
}

} // verus!
