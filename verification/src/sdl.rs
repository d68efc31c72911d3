//! The host that renders into a window: how it answers events.

use vstd::prelude::*;
use vstd::string::*;

use crate::frame::NTSC_HEIGHT;
use crate::frame::NTSC_WIDTH;
use crate::joypad::EmulationSpeed;
use crate::joypad::HostEvent;
use crate::joypad::JoypadButton;
use crate::joypad::JoypadEvent;
use crate::text::decimal;
use crate::text::push_decimal;

verus! {

/// A key, as far as the host cares.
#[derive(Debug, Clone, Copy, PartialEq, Eq, Structural)]
pub enum Keycode {
    W,
    A,
    S,
    D,
    K,
    L,
    Return,
    Space,
    Q,
    Escape,
    R,
    Num0,
    Num1,
    Num2,
    Num3,
    V,
    Other,
}

/// What the window system reports.
#[derive(Debug, Clone, Copy, PartialEq, Eq, Structural)]
pub enum WindowEvent {
    Quit,
    KeyDown(Keycode),
    KeyUp(Keycode),
    Other,
}

/// What the host does about an event.
#[derive(Debug, Clone, Copy, PartialEq, Eq, Structural)]
pub enum WindowAction {
    /// Tell the joypad, and go on to the next event.
    Joypad(JoypadEvent),
    /// Tell the machine, and leave the other events for the next time.
    Return(HostEvent),
    /// Open the window anew, with or without VSync, and go on.
    SetVsync(bool),
    Ignore,
}

/// The button that a key stands for.
pub open spec fn button_of(keycode: Keycode) -> Option<JoypadButton> {
    match keycode {
        Keycode::W => Some(JoypadButton::Up),
        Keycode::A => Some(JoypadButton::Left),
        Keycode::S => Some(JoypadButton::Down),
        Keycode::D => Some(JoypadButton::Right),
        Keycode::K => Some(JoypadButton::B),
        Keycode::L => Some(JoypadButton::A),
        Keycode::Return => Some(JoypadButton::Start),
        Keycode::Space => Some(JoypadButton::Select),
        _ => None,
    }
}

/// What an event tells the joypad.
pub open spec fn joypad_event_of(event: WindowEvent) -> Option<JoypadEvent> {
    match event {
        WindowEvent::KeyDown(keycode) => match button_of(keycode) {
            Some(button) => Some(JoypadEvent::Press(button)),
            None => None,
        },
        WindowEvent::KeyUp(keycode) => match button_of(keycode) {
            Some(button) => Some(JoypadEvent::Release(button)),
            None => None,
        },
        _ => None,
    }
}

/// What the host does about an event, where VSync is on or off.
pub open spec fn action_of(event: WindowEvent, vsync: bool) -> WindowAction {
    match joypad_event_of(event) {
        Some(joypad) => WindowAction::Joypad(joypad),
        None => match event {
            WindowEvent::Quit => WindowAction::Return(HostEvent::Shutdown),
            WindowEvent::KeyDown(keycode) => match keycode {
                Keycode::Q | Keycode::Escape => WindowAction::Return(HostEvent::Shutdown),
                Keycode::R => WindowAction::Return(HostEvent::Reset),
                Keycode::Num0 => WindowAction::Return(
                    HostEvent::ChangeSpeed(EmulationSpeed::Uncapped),
                ),
                Keycode::Num1 => WindowAction::Return(
                    HostEvent::ChangeSpeed(EmulationSpeed::Normal),
                ),
                Keycode::Num2 => WindowAction::Return(
                    HostEvent::ChangeSpeed(EmulationSpeed::Fast(2)),
                ),
                Keycode::Num3 => WindowAction::Return(
                    HostEvent::ChangeSpeed(EmulationSpeed::Fast(3)),
                ),
                Keycode::V => WindowAction::SetVsync(!vsync),
                _ => WindowAction::Ignore,
            },
            _ => WindowAction::Ignore,
        },
    }
}

/// Whether VSync is on once the host has acted.
pub open spec fn vsync_after(action: WindowAction, vsync: bool) -> bool {
    match action {
        WindowAction::SetVsync(on) => on,
        _ => vsync,
    }
}

/// `true` or `false`.
pub open spec fn bool_text(b: bool) -> Seq<char> {
    if b {
        "true"@
    } else {
        "false"@
    }
}

/// What the host says about an action it has taken, where VSync is on or off
/// now.
pub open spec fn notice_of(action: WindowAction, vsync: bool) -> Option<Seq<char>> {
    match action {
        WindowAction::Return(HostEvent::ChangeSpeed(speed)) => Some(
            match speed {
                EmulationSpeed::Normal => "Speed: Normal (authentic NES timing, VSync "@ + bool_text(
                    vsync,
                ) + ")"@,
                EmulationSpeed::Fast(n) => "Speed: "@ + decimal(n as nat) + "x (VSync "@
                    + bool_text(vsync) + ")"@,
                EmulationSpeed::Uncapped => "Speed: Uncapped (max performance, VSync "@ + bool_text(
                    vsync,
                ) + ")"@,
            },
        ),
        WindowAction::SetVsync(_) => Some("VSync: "@ + bool_text(vsync)),
        _ => None,
    }
}

fn bool_str(b: bool) -> (s: &'static str)
    ensures
        s@ == bool_text(b),
{
    if b {
        "true"
    } else {
        "false"
    }
}

/// The button that a key stands for.
pub fn map_button(keycode: Keycode) -> (button: Option<JoypadButton>)
    ensures
        button == button_of(keycode),
{
    match keycode {
        Keycode::W => Some(JoypadButton::Up),
        Keycode::A => Some(JoypadButton::Left),
        Keycode::S => Some(JoypadButton::Down),
        Keycode::D => Some(JoypadButton::Right),
        Keycode::K => Some(JoypadButton::B),
        Keycode::L => Some(JoypadButton::A),
        Keycode::Return => Some(JoypadButton::Start),
        Keycode::Space => Some(JoypadButton::Select),
        _ => None,
    }
}

/// What an event tells the joypad.
pub fn map_joypad(event: WindowEvent) -> (joypad: Option<JoypadEvent>)
    ensures
        joypad == joypad_event_of(event),
{
    match event {
        WindowEvent::KeyDown(keycode) => match map_button(keycode) {
            Some(button) => Some(JoypadEvent::Press(button)),
            None => None,
        },
        WindowEvent::KeyUp(keycode) => match map_button(keycode) {
            Some(button) => Some(JoypadEvent::Release(button)),
            None => None,
        },
        _ => None,
    }
}

/// The width and height of the window: four times those of the picture.
pub fn window_size() -> (size: (u32, u32))
    ensures
        size.0 == NTSC_WIDTH * 4,
        size.1 == NTSC_HEIGHT * 4,
        size == (960u32, 896u32),
{
    (NTSC_WIDTH as u32 * 4, NTSC_HEIGHT as u32 * 4)
}

/// Renders into a window: the part of the host that decides. The view is whether
/// VSync is on.
pub struct SdlHostPlatform {
    vsync_enabled: bool,
}

impl View for SdlHostPlatform {
    type V = bool;

    closed spec fn view(&self) -> bool {
        self.vsync_enabled
    }
}

impl SdlHostPlatform {
    /// VSync is on at first.
    pub fn new() -> (host: Self)
        ensures
            host@,
    {
        SdlHostPlatform { vsync_enabled: true }
    }

    /// VSync is on.
    pub fn vsync_enabled(&self) -> (enabled: bool)
        ensures
            enabled == self@,
    {
        self.vsync_enabled
    }

    /// Decides what is done about an event.
    pub fn on_event(&mut self, event: WindowEvent) -> (action: WindowAction)
        ensures
            action == action_of(event, old(self)@),
            final(self)@ == vsync_after(action, old(self)@),
    {
        if let Some(joypad) = map_joypad(event) {
            return WindowAction::Joypad(joypad);
        }
        match event {
            WindowEvent::Quit
            | WindowEvent::KeyDown(Keycode::Q)
            | WindowEvent::KeyDown(Keycode::Escape) => WindowAction::Return(HostEvent::Shutdown),
            WindowEvent::KeyDown(Keycode::R) => WindowAction::Return(HostEvent::Reset),
            WindowEvent::KeyDown(Keycode::Num1) => WindowAction::Return(
                HostEvent::ChangeSpeed(EmulationSpeed::Normal),
            ),
            WindowEvent::KeyDown(Keycode::Num2) => WindowAction::Return(
                HostEvent::ChangeSpeed(EmulationSpeed::Fast(2)),
            ),
            WindowEvent::KeyDown(Keycode::Num3) => WindowAction::Return(
                HostEvent::ChangeSpeed(EmulationSpeed::Fast(3)),
            ),
            WindowEvent::KeyDown(Keycode::Num0) => WindowAction::Return(
                HostEvent::ChangeSpeed(EmulationSpeed::Uncapped),
            ),
            WindowEvent::KeyDown(Keycode::V) => {
                self.vsync_enabled = !self.vsync_enabled;
                WindowAction::SetVsync(self.vsync_enabled)
            },
            _ => WindowAction::Ignore,
        }
    }

    /// What to say about an action that was taken.
    pub fn notice(&self, action: WindowAction) -> (notice: Option<String>)
        ensures
            match notice {
                Some(text) => notice_of(action, self@) == Some(text@),
                None => notice_of(action, self@) is None,
            },
    {
        let vsync = bool_str(self.vsync_enabled);
        match action {
            WindowAction::Return(HostEvent::ChangeSpeed(speed)) => {
                let mut text = String::new();
                match speed {
                    EmulationSpeed::Normal => {
                        text.append("Speed: Normal (authentic NES timing, VSync ");
                    },
                    EmulationSpeed::Fast(n) => {
                        text.append("Speed: ");
                        push_decimal(&mut text, n as u64);
                        text.append("x (VSync ");
                    },
                    EmulationSpeed::Uncapped => {
                        text.append("Speed: Uncapped (max performance, VSync ");
                    },
                }
                text.append(vsync);
                text.append(")");
                assert(notice_of(action, self@) matches Some(t) && t =~= text@);
                Some(text)
            },
            WindowAction::SetVsync(_) => {
                let mut text = "VSync: ".to_owned();
                text.append(vsync);
                Some(text)
            },
            _ => None,
        }
    }
}

/// Pressing the VSync key twice leaves VSync as it was.
pub proof fn toggling_vsync_twice_restores_it(vsync: bool)
    ensures
        ({
            let key = WindowEvent::KeyDown(Keycode::V);
            let once = vsync_after(action_of(key, vsync), vsync);
            &&& once != vsync
            &&& vsync_after(action_of(key, once), once) == vsync
        }),
{
}

/// A key is answered when it comes up exactly where it stands for a button, and
/// then lets go of the button that it pressed.
pub proof fn keys_release_what_they_press(keycode: Keycode, vsync: bool, button: JoypadButton)
    ensures
        action_of(WindowEvent::KeyDown(keycode), vsync) == WindowAction::Joypad(
            JoypadEvent::Press(button),
        ) <==> action_of(WindowEvent::KeyUp(keycode), vsync) == WindowAction::Joypad(
            JoypadEvent::Release(button),
        ),
        button_of(keycode) is None ==> action_of(WindowEvent::KeyUp(keycode), vsync)
            == WindowAction::Ignore,
{
}

/// What comes of the events of one poll.
#[verifier::ext_equal]
pub struct Answered {
    /// What the joypad is told, in order.
    pub joypad: Seq<JoypadEvent>,
    /// VSync is on.
    pub vsync: bool,
    /// What the machine is told, once an event calls for it. The events behind
    /// that one are left for the next poll.
    pub event: Option<HostEvent>,
}

impl Answered {
    /// One more event is answered.
    pub open spec fn step(self, event: WindowEvent) -> Answered {
        if self.event is Some {
            self
        } else {
            let action = action_of(event, self.vsync);
            Answered {
                joypad: match action {
                    WindowAction::Joypad(joypad) => self.joypad.push(joypad),
                    _ => self.joypad,
                },
                vsync: vsync_after(action, self.vsync),
                event: match action {
                    WindowAction::Return(answer) => Some(answer),
                    _ => None,
                },
            }
        }
    }

    /// What the machine is told in the end.
    pub open spec fn host_event(self) -> HostEvent {
        match self.event {
            Some(answer) => answer,
            None => HostEvent::Nothing,
        }
    }
}

/// These events are answered one by one, where VSync is on or off at first.
pub open spec fn answered(events: Seq<WindowEvent>, vsync: bool) -> Answered
    decreases events.len(),
{
    if events.len() == 0 {
        Answered { joypad: seq![], vsync, event: None }
    } else {
        answered(events.drop_last(), vsync).step(events.last())
    }
}

/// What an event tells the machine, if anything.
pub open spec fn answer_to(event: WindowEvent) -> Option<HostEvent> {
    match action_of(event, true) {
        WindowAction::Return(answer) => Some(answer),
        _ => None,
    }
}

/// The number of events before the first that tells the machine something.
pub open spec fn before_answer(events: Seq<WindowEvent>) -> int
    decreases events.len(),
{
    if events.len() == 0 || answer_to(events[0]) is Some {
        0
    } else {
        1 + before_answer(events.drop_first())
    }
}

/// The presses and releases among these events.
pub open spec fn joypad_events(events: Seq<WindowEvent>) -> Seq<JoypadEvent>
    decreases events.len(),
{
    if events.len() == 0 {
        seq![]
    } else {
        let before = joypad_events(events.drop_last());
        match joypad_event_of(events.last()) {
            Some(joypad) => before.push(joypad),
            None => before,
        }
    }
}

/// How often the VSync key was pressed among these events.
pub open spec fn vsync_presses(events: Seq<WindowEvent>) -> nat
    decreases events.len(),
{
    if events.len() == 0 {
        0
    } else {
        vsync_presses(events.drop_last()) + (if events.last() == WindowEvent::KeyDown(
            Keycode::V,
        ) {
            1nat
        } else {
            0
        })
    }
}

proof fn lemma_before_answer(events: Seq<WindowEvent>)
    ensures
        0 <= before_answer(events) <= events.len(),
        forall|i: int| 0 <= i < before_answer(events) ==> answer_to(#[trigger] events[i]) is None,
        before_answer(events) < events.len() ==> answer_to(
            events[before_answer(events)],
        ) is Some,
    decreases events.len(),
{
    if events.len() > 0 && answer_to(events[0]) is None {
        let rest = events.drop_first();
        lemma_before_answer(rest);
        assert forall|i: int| 0 <= i < before_answer(events) implies answer_to(
            #[trigger] events[i],
        ) is None by {
            if i > 0 {
                assert(events[i] == rest[i - 1]);
            }
        }
    }
}

/// Events that tell the machine nothing are all answered.
proof fn lemma_answered_quiet(events: Seq<WindowEvent>, vsync: bool)
    requires
        forall|i: int| 0 <= i < events.len() ==> answer_to(#[trigger] events[i]) is None,
    ensures
        ({
            let done = answered(events, vsync);
            &&& done.event is None
            &&& done.joypad == joypad_events(events)
            &&& done.vsync == (vsync != (vsync_presses(events) % 2 == 1))
        }),
    decreases events.len(),
{
    if events.len() > 0 {
        let before = events.drop_last();
        assert forall|i: int| 0 <= i < before.len() implies answer_to(
            #[trigger] before[i],
        ) is None by {
            assert(before[i] == events[i]);
        }
        lemma_answered_quiet(before, vsync);
        assert(answer_to(events[events.len() - 1]) is None);
    }
}

/// Behind the first event that tells the machine something nothing is answered.
proof fn lemma_answered_prefix(events: Seq<WindowEvent>, vsync: bool, n: int)
    requires
        0 <= n <= events.len(),
        answered(events.take(n), vsync).event is Some,
    ensures
        answered(events, vsync) == answered(events.take(n), vsync),
    decreases events.len() - n,
{
    if n < events.len() {
        assert(events.take(n + 1).drop_last() =~= events.take(n));
        lemma_answered_prefix(events, vsync, n + 1);
    } else {
        assert(events.take(n) =~= events);
    }
}

/// In each poll the machine is told what the first event calls for that calls for
/// anything, or nothing where there is none. The joypad is told, in order, of
/// exactly the presses and releases before that event, and VSync is toggled once
/// for each press of its key before it.
pub proof fn polls_end_at_the_first_answer(events: Seq<WindowEvent>, vsync: bool)
    ensures
        ({
            let n = before_answer(events);
            let done = answered(events, vsync);
            &&& 0 <= n <= events.len()
            &&& forall|i: int| 0 <= i < n ==> answer_to(#[trigger] events[i]) is None
            &&& n < events.len() ==> answer_to(events[n]) == Some(done.host_event())
            &&& n == events.len() ==> done.host_event() == HostEvent::Nothing
            &&& done.joypad == joypad_events(events.take(n))
            &&& done.vsync == (vsync != (vsync_presses(events.take(n)) % 2 == 1))
        }),
{
    let n = before_answer(events);
    lemma_before_answer(events);
    let quiet = events.take(n);
    assert forall|i: int| 0 <= i < quiet.len() implies answer_to(#[trigger] quiet[i]) is None by {
        assert(quiet[i] == events[i]);
    }
    lemma_answered_quiet(quiet, vsync);
    if n < events.len() {
        assert(events.take(n + 1).drop_last() =~= quiet);
        lemma_answered_prefix(events, vsync, n + 1);
    } else {
        assert(quiet =~= events);
    }
}

/// Quit, Q and Escape shut down, R resets, 1, 2, 3 and 0 change the speed, and V
/// toggles VSync, each when its key goes down; nothing else does any of that.
pub proof fn window_events_have_their_actions(event: WindowEvent, vsync: bool, on: bool)
    ensures
        action_of(event, vsync) == WindowAction::Return(HostEvent::Shutdown) <==> event
            == WindowEvent::Quit || event == WindowEvent::KeyDown(Keycode::Q) || event
            == WindowEvent::KeyDown(Keycode::Escape),
        action_of(event, vsync) == WindowAction::Return(HostEvent::Reset) <==> event
            == WindowEvent::KeyDown(Keycode::R),
        action_of(event, vsync) == WindowAction::Return(
            HostEvent::ChangeSpeed(EmulationSpeed::Normal),
        ) <==> event == WindowEvent::KeyDown(Keycode::Num1),
        action_of(event, vsync) == WindowAction::Return(
            HostEvent::ChangeSpeed(EmulationSpeed::Fast(2)),
        ) <==> event == WindowEvent::KeyDown(Keycode::Num2),
        action_of(event, vsync) == WindowAction::Return(
            HostEvent::ChangeSpeed(EmulationSpeed::Fast(3)),
        ) <==> event == WindowEvent::KeyDown(Keycode::Num3),
        action_of(event, vsync) == WindowAction::Return(
            HostEvent::ChangeSpeed(EmulationSpeed::Uncapped),
        ) <==> event == WindowEvent::KeyDown(Keycode::Num0),
        action_of(event, vsync) == WindowAction::SetVsync(on) <==> event == WindowEvent::KeyDown(
            Keycode::V,
        ) && on != vsync,
        action_of(event, vsync) is Joypad <==> joypad_event_of(event) is Some,
        action_of(event, vsync) matches WindowAction::Joypad(joypad) ==> joypad_event_of(event)
            == Some(joypad),
{
}

/// Each button has one key: W Up, A Left, S Down, D Right, K B, L A, Return Start
/// and Space Select. The key that goes down presses it and the key that comes up
/// lets go of it.
pub proof fn each_button_has_its_key(keycode: Keycode, button: JoypadButton)
    ensures
        ({
            let is_key = match button {
                JoypadButton::Up => keycode == Keycode::W,
                JoypadButton::Left => keycode == Keycode::A,
                JoypadButton::Down => keycode == Keycode::S,
                JoypadButton::Right => keycode == Keycode::D,
                JoypadButton::B => keycode == Keycode::K,
                JoypadButton::A => keycode == Keycode::L,
                JoypadButton::Start => keycode == Keycode::Return,
                JoypadButton::Select => keycode == Keycode::Space,
            };
            &&& button_of(keycode) == Some(button) <==> is_key
            &&& joypad_event_of(WindowEvent::KeyDown(keycode)) == Some(JoypadEvent::Press(button))
                <==> is_key
            &&& joypad_event_of(WindowEvent::KeyUp(keycode)) == Some(JoypadEvent::Release(button))
                <==> is_key
            &&& joypad_event_of(WindowEvent::KeyDown(keycode)) != Some(
                JoypadEvent::Release(button),
            )
            &&& joypad_event_of(WindowEvent::KeyUp(keycode)) != Some(JoypadEvent::Press(button))
            &&& joypad_event_of(WindowEvent::Quit) is None
            &&& joypad_event_of(WindowEvent::Other) is None
        }),
{
}

/// VSync is as an action sets it, and otherwise as it was.
pub proof fn only_setting_changes_vsync(action: WindowAction, vsync: bool, on: bool)
    ensures
        vsync_after(WindowAction::SetVsync(on), vsync) == on,
        !(action is SetVsync) ==> vsync_after(action, vsync) == vsync,
{
}

/// What is said of a change of speed names the speed and whether VSync is on, and
/// what is said of VSync whether it is on. Nothing else is spoken of.
pub proof fn changes_are_announced(action: WindowAction, vsync: bool, n: u32)
    ensures
        ({
            let on = if vsync {
                "true"@
            } else {
                "false"@
            };
            let said = |speed: EmulationSpeed|
                notice_of(WindowAction::Return(HostEvent::ChangeSpeed(speed)), vsync);
            &&& said(EmulationSpeed::Normal) == Some(
                "Speed: Normal (authentic NES timing, VSync "@ + on + ")"@,
            )
            &&& said(EmulationSpeed::Fast(n)) == Some(
                "Speed: "@ + decimal(n as nat) + "x (VSync "@ + on + ")"@,
            )
            &&& said(EmulationSpeed::Uncapped) == Some(
                "Speed: Uncapped (max performance, VSync "@ + on + ")"@,
            )
            &&& notice_of(WindowAction::SetVsync(vsync), vsync) == Some("VSync: "@ + on)
            &&& notice_of(action, vsync) is Some <==> action is SetVsync || (
            action matches WindowAction::Return(answer) && answer is ChangeSpeed)
        }),
{
}

} // verus!
