//! The host that renders into the local terminal: how it answers keys, and when
//! it writes a frame.

use vstd::prelude::*;

use crate::codec::crc32;
use crate::codec::crc32_of;
use crate::joypad::buttons_are_held_until_released;
use crate::joypad::held_after;
use crate::joypad::not_released;
use crate::joypad::HostEvent;
use crate::joypad::JoypadButton;
use crate::joypad::JoypadEvent;

verus! {

/// Terminals that don't support the Kitty keyboard protocol only report key
/// presses, never releases. So a held button looks like a burst of presses
/// (auto-repeat) followed by silence. We auto-release a button this long after
/// its last press, in nanoseconds; key auto-repeat refreshes it in the meantime.
/// Terminals that *do* report releases (kitty, Ghostty, ...) release immediately
/// and never hit this timeout.
pub const RELEASE_AFTER: u128 = 120_000_000;

/// A key, as far as the host cares.
#[derive(Debug, Clone, Copy, PartialEq, Eq, Structural)]
pub enum KeyCode {
    Char(char),
    Enter,
    Esc,
    Other,
}

#[derive(Debug, Clone, Copy, PartialEq, Eq, Structural)]
pub enum KeyEventKind {
    Press,
    Repeat,
    Release,
}

#[derive(Debug, Clone, Copy, PartialEq, Eq, Structural)]
pub struct KeyEvent {
    pub code: KeyCode,
    /// The control key is down.
    pub ctrl: bool,
    pub kind: KeyEventKind,
}

/// What the terminal reports.
#[derive(Debug, Clone, Copy, PartialEq, Eq, Structural)]
pub enum TermEvent {
    Key(KeyEvent),
    /// The terminal has this many columns and rows now.
    Resize(u16, u16),
    /// Anything else, or a failure to read.
    Other,
}

/// An event, and when it was read: nanoseconds on the host's clock.
#[derive(Debug, Clone, Copy, PartialEq, Eq, Structural)]
pub struct TimedEvent {
    pub event: TermEvent,
    pub at: u128,
}

/// What comes of the events since the last frame.
#[derive(Debug, PartialEq, Eq)]
pub struct PollOutcome {
    /// What to tell the joypad, in order.
    pub joypad: Vec<JoypadEvent>,
    /// The sizes to tell the renderer, in columns and rows, in order.
    pub resized: Vec<(u16, u16)>,
    /// What to tell the machine.
    pub event: HostEvent,
}

/// What to do with a rendered frame.
#[derive(Debug, Clone, Copy, PartialEq, Eq, Structural)]
pub enum FrameAction {
    /// Erase the whole screen, then write the frame.
    ClearAndWrite,
    Write,
    /// The frame is on screen already.
    Skip,
}

/// What the host remembers.
#[verifier::ext_equal]
pub struct TuiState {
    /// The buttons that are down, each with the time of its last press.
    pub pressed: Map<JoypadButton, u128>,
    /// The player has asked to quit.
    pub shutdown: bool,
    /// The terminal was resized: the next frame is written even if its content
    /// is that of the last one.
    pub force_redraw: bool,
    /// CRC of the last frame written.
    pub crc: u32,
}

/// The button that a key stands for.
pub open spec fn button_of(code: KeyCode) -> Option<JoypadButton> {
    match code {
        KeyCode::Char(c) => if c == 'w' || c == 'W' {
            Some(JoypadButton::Up)
        } else if c == 's' || c == 'S' {
            Some(JoypadButton::Down)
        } else if c == 'a' || c == 'A' {
            Some(JoypadButton::Left)
        } else if c == 'd' || c == 'D' {
            Some(JoypadButton::Right)
        } else if c == 'l' || c == 'L' {
            Some(JoypadButton::A)
        } else if c == 'k' || c == 'K' {
            Some(JoypadButton::B)
        } else if c == ' ' {
            Some(JoypadButton::Select)
        } else {
            None
        },
        KeyCode::Enter => Some(JoypadButton::Start),
        _ => None,
    }
}

/// Quit: Esc or Ctrl-C (raw mode means we never get a SIGINT).
pub open spec fn quits(key: KeyEvent) -> bool {
    key.code == KeyCode::Esc || key.code == KeyCode::Char('c') && key.ctrl
}

pub open spec fn resets(key: KeyEvent) -> bool {
    key.code == KeyCode::Char('r') || key.code == KeyCode::Char('R')
}

/// A button last pressed at `at` is let go by `now`.
pub open spec fn is_expired(at: u128, now: u128) -> bool {
    now - at >= RELEASE_AFTER
}

/// All buttons.
pub open spec fn buttons() -> Seq<JoypadButton> {
    seq![
        JoypadButton::Up,
        JoypadButton::Down,
        JoypadButton::Left,
        JoypadButton::Right,
        JoypadButton::A,
        JoypadButton::B,
        JoypadButton::Select,
        JoypadButton::Start,
    ]
}

/// The place of a button among all.
pub open spec fn slot(button: JoypadButton) -> int {
    match button {
        JoypadButton::Up => 0,
        JoypadButton::Down => 1,
        JoypadButton::Left => 2,
        JoypadButton::Right => 3,
        JoypadButton::A => 4,
        JoypadButton::B => 5,
        JoypadButton::Select => 6,
        JoypadButton::Start => 7,
    }
}

/// The host's state and what it has to say so far.
#[verifier::ext_equal]
pub struct Polled {
    pub state: TuiState,
    pub joypad: Seq<JoypadEvent>,
    pub resized: Seq<(u16, u16)>,
    pub reset: bool,
}

impl Polled {
    /// A button goes down.
    pub open spec fn press(self, button: JoypadButton, at: u128) -> Polled {
        Polled {
            state: TuiState { pressed: self.state.pressed.insert(button, at), ..self.state },
            joypad: self.joypad.push(JoypadEvent::Press(button)),
            ..self
        }
    }

    /// A button comes up, if it was down.
    pub open spec fn release(self, button: JoypadButton) -> Polled {
        if self.state.pressed.contains_key(button) {
            Polled {
                state: TuiState { pressed: self.state.pressed.remove(button), ..self.state },
                joypad: self.joypad.push(JoypadEvent::Release(button)),
                ..self
            }
        } else {
            self
        }
    }

    /// The first `n` buttons come up, where they have expired.
    pub open spec fn release_expired(self, now: u128, n: nat) -> Polled
        decreases n,
    {
        if n == 0 {
            self
        } else {
            let before = self.release_expired(now, (n - 1) as nat);
            let button = buttons()[n - 1];
            if before.state.pressed.contains_key(button) && is_expired(
                before.state.pressed[button],
                now,
            ) {
                before.release(button)
            } else {
                before
            }
        }
    }

    /// An event is answered.
    pub open spec fn step(self, timed: TimedEvent) -> Polled {
        match timed.event {
            TermEvent::Key(key) => if quits(key) {
                Polled { state: TuiState { shutdown: true, ..self.state }, ..self }
            } else if resets(key) {
                Polled { reset: true, ..self }
            } else {
                match button_of(key.code) {
                    Some(button) => if key.kind == KeyEventKind::Release {
                        self.release(button)
                    } else {
                        self.press(button, timed.at)
                    },
                    None => self,
                }
            },
            // A resize clears/reflows the terminal; force the next frame to be
            // written even if its content is unchanged.
            TermEvent::Resize(cols, rows) => Polled {
                state: TuiState { force_redraw: true, ..self.state },
                resized: self.resized.push((cols, rows)),
                ..self
            },
            TermEvent::Other => self,
        }
    }

    /// What to tell the machine.
    pub open spec fn host_event(self) -> HostEvent {
        if self.state.shutdown {
            HostEvent::Shutdown
        } else if self.reset {
            HostEvent::Reset
        } else {
            HostEvent::Nothing
        }
    }
}

impl TuiState {
    /// Nothing has happened yet.
    pub open spec fn idle(self) -> Polled {
        Polled { state: self, joypad: seq![], resized: seq![], reset: false }
    }

    /// These events are answered, one by one.
    pub open spec fn steps(self, events: Seq<TimedEvent>) -> Polled
        decreases events.len(),
    {
        if events.len() == 0 {
            self.idle()
        } else {
            self.steps(events.drop_last()).step(events.last())
        }
    }

    /// These events are answered, and buttons that have expired by `now` let go.
    pub open spec fn polled(self, events: Seq<TimedEvent>, now: u128) -> Polled {
        self.steps(events).release_expired(now, 8)
    }

    /// What to do with a frame that has this CRC.
    pub open spec fn frame_action(self, crc: u32) -> FrameAction {
        if self.force_redraw {
            FrameAction::ClearAndWrite
        } else if crc != self.crc {
            FrameAction::Write
        } else {
            FrameAction::Skip
        }
    }

    /// The state once that is done.
    pub open spec fn after_frame(self, crc: u32) -> TuiState {
        TuiState { force_redraw: false, crc, ..self }
    }
}

/// Renders into the local terminal and reads input from it: the part of the host
/// that decides.
pub struct TuiHost {
    pressed: [Option<u128>; 8],
    shutdown: bool,
    force_redraw: bool,
    crc: u32,
}

spec fn pressed_map(slots: Seq<Option<u128>>) -> Map<JoypadButton, u128> {
    Map::new(|b: JoypadButton| slots[slot(b)] is Some, |b: JoypadButton| slots[slot(b)]->0)
}

impl View for TuiHost {
    type V = TuiState;

    closed spec fn view(&self) -> TuiState {
        TuiState {
            pressed: pressed_map(self.pressed@),
            shutdown: self.shutdown,
            force_redraw: self.force_redraw,
            crc: self.crc,
        }
    }
}

fn slot_of(button: JoypadButton) -> (i: usize)
    ensures
        i == slot(button),
{
    match button {
        JoypadButton::Up => 0,
        JoypadButton::Down => 1,
        JoypadButton::Left => 2,
        JoypadButton::Right => 3,
        JoypadButton::A => 4,
        JoypadButton::B => 5,
        JoypadButton::Select => 6,
        JoypadButton::Start => 7,
    }
}

fn button_at(i: usize) -> (button: JoypadButton)
    requires
        i < 8,
    ensures
        button == buttons()[i as int],
        slot(button) == i,
{
    match i {
        0 => JoypadButton::Up,
        1 => JoypadButton::Down,
        2 => JoypadButton::Left,
        3 => JoypadButton::Right,
        4 => JoypadButton::A,
        5 => JoypadButton::B,
        6 => JoypadButton::Select,
        _ => JoypadButton::Start,
    }
}

impl TuiHost {
    pub fn new() -> (host: Self)
        ensures
            host@ == (TuiState {
                pressed: Map::empty(),
                shutdown: false,
                force_redraw: false,
                crc: 0,
            }),
    {
        let host = TuiHost {
            pressed: [None, None, None, None, None, None, None, None],
            shutdown: false,
            force_redraw: false,
            crc: 0,
        };
        assert(host@.pressed =~= Map::empty());
        host
    }

    /// The button that a key stands for.
    pub fn map_button(code: KeyCode) -> (button: Option<JoypadButton>)
        ensures
            button == button_of(code),
    {
        match code {
            KeyCode::Char('w') | KeyCode::Char('W') => Some(JoypadButton::Up),
            KeyCode::Char('s') | KeyCode::Char('S') => Some(JoypadButton::Down),
            KeyCode::Char('a') | KeyCode::Char('A') => Some(JoypadButton::Left),
            KeyCode::Char('d') | KeyCode::Char('D') => Some(JoypadButton::Right),
            KeyCode::Char('l') | KeyCode::Char('L') => Some(JoypadButton::A),
            KeyCode::Char('k') | KeyCode::Char('K') => Some(JoypadButton::B),
            KeyCode::Char(' ') => Some(JoypadButton::Select),
            KeyCode::Enter => Some(JoypadButton::Start),
            _ => None,
        }
    }

    fn press(&mut self, joypad: &mut Vec<JoypadEvent>, button: JoypadButton, at: u128)
        ensures
            final(self)@ == (TuiState {
                pressed: old(self)@.pressed.insert(button, at),
                ..old(self)@
            }),
            final(joypad)@ == old(joypad)@.push(JoypadEvent::Press(button)),
    {
        let i: usize = slot_of(button);
        self.pressed[i] = Some(at);
        joypad.push(JoypadEvent::Press(button));
        assert(self@.pressed =~= old(self)@.pressed.insert(button, at));
    }

    fn release(&mut self, joypad: &mut Vec<JoypadEvent>, button: JoypadButton)
        ensures
            old(self)@.pressed.contains_key(button) ==> {
                &&& final(self)@ == (TuiState {
                    pressed: old(self)@.pressed.remove(button),
                    ..old(self)@
                })
                &&& final(joypad)@ == old(joypad)@.push(JoypadEvent::Release(button))
            },
            !old(self)@.pressed.contains_key(button) ==> {
                &&& final(self)@ == old(self)@
                &&& final(joypad)@ == old(joypad)@
            },
    {
        let i: usize = slot_of(button);
        if self.pressed[i].is_some() {
            self.pressed[i] = None;
            joypad.push(JoypadEvent::Release(button));
            assert(self@.pressed =~= old(self)@.pressed.remove(button));
        }
    }

    fn release_expired(&mut self, joypad: &mut Vec<JoypadEvent>, now: u128, polled: Ghost<Polled>)
        requires
            polled@.state == old(self)@,
            polled@.joypad == old(joypad)@,
        ensures
            final(self)@ == polled@.release_expired(now, 8).state,
            final(joypad)@ == polled@.release_expired(now, 8).joypad,
    {
        for i in 0..8usize
            invariant
                self@ == polled@.release_expired(now, i as nat).state,
                joypad@ == polled@.release_expired(now, i as nat).joypad,
        {
            let button = button_at(i);
            if let Some(at) = self.pressed[i] {
                if now >= at && now - at >= RELEASE_AFTER {
                    self.release(joypad, button);
                }
            }
        }
    }

    /// Answers one event.
    fn on_event(
        &mut self,
        timed: TimedEvent,
        joypad: &mut Vec<JoypadEvent>,
        resized: &mut Vec<(u16, u16)>,
        reset: bool,
    ) -> (reset_now: bool)
        ensures
            (Polled {
                state: old(self)@,
                joypad: old(joypad)@,
                resized: old(resized)@,
                reset,
            }).step(timed) == (Polled {
                state: final(self)@,
                joypad: final(joypad)@,
                resized: final(resized)@,
                reset: reset_now,
            }),
    {
        let key = match timed.event {
            TermEvent::Key(key) => key,
            TermEvent::Resize(cols, rows) => {
                self.force_redraw = true;
                resized.push((cols, rows));
                return reset;
            },
            TermEvent::Other => {
                return reset;
            },
        };
        let quit = match key.code {
            KeyCode::Esc => true,
            KeyCode::Char('c') => key.ctrl,
            _ => false,
        };
        if quit {
            self.shutdown = true;
            return reset;
        }
        if matches!(key.code, KeyCode::Char('r') | KeyCode::Char('R')) {
            return true;
        }
        if let Some(button) = Self::map_button(key.code) {
            match key.kind {
                KeyEventKind::Press | KeyEventKind::Repeat => self.press(joypad, button, timed.at),
                KeyEventKind::Release => self.release(joypad, button),
            }
        }
        reset
    }

    /// Answers every event queued since the last frame, in the order in which
    /// they were read, and lets go of the buttons that have expired by `now`.
    pub fn poll_events(&mut self, events: &Vec<TimedEvent>, now: u128) -> (outcome: PollOutcome)
        ensures
            ({
                let polled = old(self)@.polled(events@, now);
                &&& final(self)@ == polled.state
                &&& outcome.joypad@ == polled.joypad
                &&& outcome.resized@ == polled.resized
                &&& outcome.event == polled.host_event()
            }),
    {
        let mut joypad: Vec<JoypadEvent> = Vec::new();
        let mut resized: Vec<(u16, u16)> = Vec::new();
        let mut reset = false;
        let ghost before = self@;
        for i in 0..events.len()
            invariant
                before.steps(events@.take(i as int)) == (Polled {
                    state: self@,
                    joypad: joypad@,
                    resized: resized@,
                    reset,
                }),
        {
            reset = self.on_event(events[i], &mut joypad, &mut resized, reset);
            assert(events@.take(i + 1).drop_last() =~= events@.take(i as int));
        }
        assert(events@.take(events@.len() as int) =~= events@);
        let ghost done = before.steps(events@);
        self.release_expired(&mut joypad, now, Ghost(done));
        proof {
            lemma_release_expired_keeps(done, now, 8);
        }
        let event = if self.shutdown {
            HostEvent::Shutdown
        } else if reset {
            HostEvent::Reset
        } else {
            HostEvent::Nothing
        };
        PollOutcome { joypad, resized, event }
    }

    /// What to do with a rendered frame: frames that are on screen already are
    /// skipped, unless the terminal was resized since the last one was written.
    pub fn render(&mut self, bytes: &[u8]) -> (action: FrameAction)
        ensures
            action == old(self)@.frame_action(crc32(bytes@)),
            final(self)@ == old(self)@.after_frame(crc32(bytes@)),
    {
        self.render_crc(crc32_of(bytes))
    }

    /// What to do with a rendered frame that has this CRC.
    pub fn render_crc(&mut self, crc: u32) -> (action: FrameAction)
        ensures
            action == old(self)@.frame_action(crc),
            final(self)@ == old(self)@.after_frame(crc),
    {
        if self.force_redraw {
            self.crc = crc;
            self.force_redraw = false;
            FrameAction::ClearAndWrite
        } else if crc != self.crc {
            self.crc = crc;
            FrameAction::Write
        } else {
            FrameAction::Skip
        }
    }
}

proof fn lemma_release_expired_keeps(polled: Polled, now: u128, n: nat)
    requires
        n <= 8,
    ensures
        ({
            let after = polled.release_expired(now, n);
            &&& after.reset == polled.reset
            &&& after.resized == polled.resized
            &&& after.state.shutdown == polled.state.shutdown
            &&& after.state.force_redraw == polled.state.force_redraw
            &&& after.state.crc == polled.state.crc
        }),
    decreases n,
{
    if n > 0 {
        lemma_release_expired_keeps(polled, now, (n - 1) as nat);
    }
}

/// What the joypad is told agrees with `held`, the buttons that were down before:
/// the buttons that are down then are those that the host takes to be pressed,
/// and no button is let go that is not down.
pub open spec fn agrees(polled: Polled, held: Set<JoypadButton>) -> bool {
    &&& held_after(held, polled.joypad) == polled.state.pressed.dom()
    &&& forall|i: int|
        #![trigger polled.joypad[i]]
        0 <= i < polled.joypad.len() ==> (polled.joypad[i] matches JoypadEvent::Release(b)
            ==> held_after(held, polled.joypad.take(i)).contains(b))
}

proof fn lemma_press_agrees(
    polled: Polled,
    held: Set<JoypadButton>,
    button: JoypadButton,
    at: u128,
)
    requires
        agrees(polled, held),
    ensures
        agrees(polled.press(button, at), held),
{
    let after = polled.press(button, at);
    assert(after.joypad.drop_last() =~= polled.joypad);
    assert(after.state.pressed.dom() =~= polled.state.pressed.dom().insert(button));
    assert forall|i: int|
        #![trigger after.joypad[i]]
        0 <= i < after.joypad.len() && after.joypad[i] is Release implies held_after(
        held,
        after.joypad.take(i),
    ).contains(after.joypad[i]->Release_0) by {
        assert(after.joypad.take(i) =~= polled.joypad.take(i));
        assert(polled.joypad[i] == after.joypad[i]);
    }
}

proof fn lemma_release_agrees(polled: Polled, held: Set<JoypadButton>, button: JoypadButton)
    requires
        agrees(polled, held),
    ensures
        agrees(polled.release(button), held),
{
    if polled.state.pressed.contains_key(button) {
        let after = polled.release(button);
        assert(after.joypad.drop_last() =~= polled.joypad);
        assert(after.state.pressed.dom() =~= polled.state.pressed.dom().remove(button));
        assert forall|i: int|
            #![trigger after.joypad[i]]
            0 <= i < after.joypad.len() && after.joypad[i] is Release implies held_after(
            held,
            after.joypad.take(i),
        ).contains(after.joypad[i]->Release_0) by {
            assert(after.joypad.take(i) =~= polled.joypad.take(i));
            if i < polled.joypad.len() {
                assert(polled.joypad[i] == after.joypad[i]);
            } else {
                assert(polled.joypad.take(i) =~= polled.joypad);
            }
        }
    }
}

proof fn lemma_steps_agree(state: TuiState, events: Seq<TimedEvent>)
    ensures
        agrees(state.steps(events), state.pressed.dom()),
    decreases events.len(),
{
    let held = state.pressed.dom();
    if events.len() > 0 {
        lemma_steps_agree(state, events.drop_last());
        let before = state.steps(events.drop_last());
        if let TermEvent::Key(key) = events.last().event {
            if let Some(button) = button_of(key.code) {
                lemma_press_agrees(before, held, button, events.last().at);
                lemma_release_agrees(before, held, button);
            }
        }
    }
}

proof fn lemma_release_expired_agrees(
    polled: Polled,
    held: Set<JoypadButton>,
    now: u128,
    n: nat,
)
    requires
        n <= 8,
        agrees(polled, held),
    ensures
        agrees(polled.release_expired(now, n), held),
    decreases n,
{
    if n > 0 {
        lemma_release_expired_agrees(polled, held, now, (n - 1) as nat);
        lemma_release_agrees(
            polled.release_expired(now, (n - 1) as nat),
            held,
            buttons()[n - 1],
        );
    }
}

/// Whatever happens, the joypad holds down the buttons that the host takes to be
/// pressed, and is told to let go only of buttons that it holds down.
pub proof fn joypad_follows_the_host(state: TuiState, events: Seq<TimedEvent>, now: u128)
    ensures
        agrees(state.polled(events, now), state.pressed.dom()),
{
    lemma_steps_agree(state, events);
    lemma_release_expired_agrees(state.steps(events), state.pressed.dom(), now, 8);
}

/// Letting go of a button that is down tells the joypad so once, and the button is
/// up then. Letting go of one that is up, or of the same one again, tells it
/// nothing.
pub proof fn buttons_are_released_once(polled: Polled, button: JoypadButton)
    ensures
        ({
            let once = polled.release(button);
            &&& once.state.pressed == polled.state.pressed.remove(button)
            &&& once.joypad == (if polled.state.pressed.contains_key(button) {
                polled.joypad.push(JoypadEvent::Release(button))
            } else {
                polled.joypad
            })
            &&& once.release(button) == once
        }),
{
    if !polled.state.pressed.contains_key(button) {
        assert(polled.state.pressed.remove(button) =~= polled.state.pressed);
    }
}

/// Whatever a poll tells the joypad to let go of was pressed before and has not
/// been let go since: in the same poll, or in an earlier one.
pub proof fn releases_follow_presses(
    state: TuiState,
    events: Seq<TimedEvent>,
    now: u128,
    button: JoypadButton,
    i: int,
)
    requires
        0 <= i < state.polled(events, now).joypad.len(),
        state.polled(events, now).joypad[i] == JoypadEvent::Release(button),
    ensures
        ({
            let sent = state.polled(events, now).joypad.take(i);
            ||| state.pressed.contains_key(button) && not_released(sent, 0, button)
            ||| exists|j: int|
                0 <= j < sent.len() && #[trigger] sent[j] == JoypadEvent::Press(button)
                    && not_released(sent, j, button)
        }),
{
    joypad_follows_the_host(state, events, now);
    let sent = state.polled(events, now).joypad.take(i);
    buttons_are_held_until_released(state.pressed.dom(), sent, button);
}

proof fn lemma_release_expired(polled: Polled, now: u128, n: nat, b: JoypadButton)
    requires
        n <= 8,
    ensures
        ({
            let (before, after) = (
                polled.state.pressed,
                polled.release_expired(now, n).state.pressed,
            );
            &&& after.contains_key(b) <==> before.contains_key(b) && !(slot(b) < n && is_expired(
                before[b],
                now,
            ))
            &&& after.contains_key(b) ==> after[b] == before[b]
        }),
    decreases n,
{
    if n > 0 {
        lemma_release_expired(polled, now, (n - 1) as nat, b);
        let button = buttons()[n - 1];
        assert(slot(button) == n - 1);
        assert(slot(b) == n - 1 ==> b == button);
    }
}

/// Exactly the buttons that have expired are let go at the end of a poll: of
/// those that are still down, each was pressed less than the timeout ago.
pub proof fn expired_buttons_are_released(state: TuiState, events: Seq<TimedEvent>, now: u128)
    ensures
        ({
            let before = state.steps(events).state.pressed;
            let after = state.polled(events, now).state.pressed;
            &&& forall|b: JoypadButton| #[trigger]
                after.contains_key(b) <==> before.contains_key(b) && !is_expired(before[b], now)
            &&& forall|b: JoypadButton| #[trigger]
                after.contains_key(b) ==> after[b] == before[b] && now - after[b] < RELEASE_AFTER
        }),
{
    let before = state.steps(events).state.pressed;
    let after = state.polled(events, now).state.pressed;
    assert forall|b: JoypadButton|
        #![trigger after.contains_key(b)]
        (after.contains_key(b) <==> before.contains_key(b) && !is_expired(before[b], now)) && (
        after.contains_key(b) ==> after[b] == before[b]) by {
        lemma_release_expired(state.steps(events), now, 8, b);
        assert(slot(b) < 8);
    }
}

/// `event` is a key that quits.
pub open spec fn is_quit(event: TermEvent) -> bool {
    event matches TermEvent::Key(key) && quits(key)
}

proof fn lemma_shutdown(state: TuiState, events: Seq<TimedEvent>)
    ensures
        state.steps(events).state.shutdown <==> state.shutdown || exists|i: int|
            0 <= i < events.len() && is_quit(#[trigger] events[i].event),
    decreases events.len(),
{
    if events.len() > 0 {
        let before = events.drop_last();
        lemma_shutdown(state, before);
        let n = events.len() - 1;
        assert(forall|i: int| 0 <= i < n ==> #[trigger] events[i] == before[i]);
        if exists|i: int| 0 <= i < before.len() && is_quit(#[trigger] before[i].event) {
            let i = choose|i: int| 0 <= i < before.len() && is_quit(#[trigger] before[i].event);
            assert(is_quit(events[i].event));
        }
        if is_quit(events.last().event) {
            assert(is_quit(events[n].event));
        }
    }
}

/// The machine is shut down once a key that quits has come, and from then on at
/// every poll.
pub proof fn quitting_is_final(state: TuiState, events: Seq<TimedEvent>, now: u128)
    ensures
        ({
            let polled = state.polled(events, now);
            let quit = state.shutdown || exists|i: int|
                0 <= i < events.len() && is_quit(#[trigger] events[i].event);
            &&& polled.state.shutdown == quit
            &&& polled.host_event() == HostEvent::Shutdown <==> quit
        }),
{
    lemma_shutdown(state, events);
    lemma_release_expired_keeps(state.steps(events), now, 8);
}

/// A frame that was just written is not written again.
pub proof fn frames_are_not_repeated(state: TuiState, bytes: Seq<u8>)
    ensures
        state.after_frame(crc32(bytes)).frame_action(crc32(bytes)) == FrameAction::Skip,
{
}

/// The sizes that these events report.
pub open spec fn reported_sizes(events: Seq<TimedEvent>) -> Seq<(u16, u16)>
    decreases events.len(),
{
    if events.len() == 0 {
        seq![]
    } else {
        let before = reported_sizes(events.drop_last());
        match events.last().event {
            TermEvent::Resize(cols, rows) => before.push((cols, rows)),
            _ => before,
        }
    }
}

proof fn lemma_resized(state: TuiState, events: Seq<TimedEvent>)
    ensures
        ({
            let polled = state.steps(events);
            &&& polled.resized.len() > 0 ==> polled.state.force_redraw
            &&& polled.resized.len() == 0 ==> polled.state.force_redraw == state.force_redraw
            &&& polled.resized == reported_sizes(events)
            &&& polled.resized.len() > 0 <==> exists|i: int|
                0 <= i < events.len() && (#[trigger] events[i]).event is Resize
            &&& polled.state.crc == state.crc
        }),
    decreases events.len(),
{
    if events.len() > 0 {
        let before = events.drop_last();
        lemma_resized(state, before);
        let n = events.len() - 1;
        assert(forall|i: int| 0 <= i < n ==> #[trigger] events[i] == before[i]);
        if exists|i: int| 0 <= i < before.len() && (#[trigger] before[i]).event is Resize {
            let i = choose|i: int| 0 <= i < before.len() && (#[trigger] before[i]).event is Resize;
            assert(events[i].event is Resize);
        }
        if events.last().event is Resize {
            assert(events[n].event is Resize);
        }
    }
}

/// The renderer is told of every resize, in order.
pub proof fn every_resize_is_passed_on(state: TuiState, events: Seq<TimedEvent>, now: u128)
    ensures
        state.polled(events, now).resized == reported_sizes(events),
{
    lemma_resized(state, events);
    lemma_release_expired_keeps(state.steps(events), now, 8);
}

/// After a resize the next frame is written on a cleared screen, whatever it
/// shows, and only that one.
pub proof fn resizing_forces_one_redraw(
    state: TuiState,
    events: Seq<TimedEvent>,
    now: u128,
    crc: u32,
)
    requires
        exists|i: int| 0 <= i < events.len() && (#[trigger] events[i]).event is Resize,
    ensures
        ({
            let polled = state.polled(events, now);
            &&& polled.state.frame_action(crc) == FrameAction::ClearAndWrite
            &&& polled.state.after_frame(crc).frame_action(crc) == FrameAction::Skip
        }),
{
    lemma_resized(state, events);
    lemma_release_expired_keeps(state.steps(events), now, 8);
}

/// What to do with a frame rests on nothing but a pending resize and the checksum
/// of the frame before: it is skipped exactly where no resize is pending and the
/// checksums are equal, and written on a cleared screen exactly after a resize.
/// Buttons, and whether the player has asked to quit, play no part, and are left
/// alone.
pub proof fn only_shown_frames_are_skipped(state: TuiState, crc: u32)
    ensures
        state.frame_action(crc) == FrameAction::Skip <==> !state.force_redraw && crc == state.crc,
        state.frame_action(crc) == FrameAction::ClearAndWrite <==> state.force_redraw,
        state.frame_action(crc) == FrameAction::Write <==> !state.force_redraw && crc
            != state.crc,
        state.after_frame(crc).crc == crc,
        !state.after_frame(crc).force_redraw,
        state.after_frame(crc).pressed == state.pressed,
        state.after_frame(crc).shutdown == state.shutdown,
{
}

/// Of two frames with a poll between them, the second is skipped exactly where its
/// checksum is that of the first and no resize was reported.
pub proof fn new_frames_are_written(
    state: TuiState,
    first: u32,
    events: Seq<TimedEvent>,
    now: u128,
    second: u32,
)
    ensures
        ({
            let between = state.after_frame(first).polled(events, now).state;
            let resized = exists|i: int|
                0 <= i < events.len() && (#[trigger] events[i]).event is Resize;
            &&& between.frame_action(second) == FrameAction::Skip <==> first == second && !resized
            &&& between.frame_action(second) == FrameAction::ClearAndWrite <==> resized
        }),
{
    let shown = state.after_frame(first);
    lemma_resized(shown, events);
    lemma_release_expired_keeps(shown.steps(events), now, 8);
}

/// Each button has its keys: w Up, s Down, a Left, d Right, l A and k B, all with
/// or without shift, the space bar Select and Enter Start. No other key has one.
pub proof fn each_button_has_its_keys(code: KeyCode)
    ensures
        button_of(code) == Some(JoypadButton::Up) <==> code == KeyCode::Char('w') || code
            == KeyCode::Char('W'),
        button_of(code) == Some(JoypadButton::Down) <==> code == KeyCode::Char('s') || code
            == KeyCode::Char('S'),
        button_of(code) == Some(JoypadButton::Left) <==> code == KeyCode::Char('a') || code
            == KeyCode::Char('A'),
        button_of(code) == Some(JoypadButton::Right) <==> code == KeyCode::Char('d') || code
            == KeyCode::Char('D'),
        button_of(code) == Some(JoypadButton::A) <==> code == KeyCode::Char('l') || code
            == KeyCode::Char('L'),
        button_of(code) == Some(JoypadButton::B) <==> code == KeyCode::Char('k') || code
            == KeyCode::Char('K'),
        button_of(code) == Some(JoypadButton::Select) <==> code == KeyCode::Char(' '),
        button_of(code) == Some(JoypadButton::Start) <==> code == KeyCode::Enter,
{
}

/// Shift makes no difference: a letter stands for the same button in lower and in
/// upper case.
pub proof fn letters_ignore_shift(lower: char, upper: char)
    requires
        'a' <= lower <= 'z',
        upper as int == lower as int - 32,
    ensures
        button_of(KeyCode::Char(lower)) == button_of(KeyCode::Char(upper)),
{
}

/// Two keys for one button are the same letter in lower and in upper case, or the
/// same key.
pub proof fn different_keys_have_different_buttons(a: KeyCode, b: KeyCode)
    requires
        button_of(a) is Some,
        button_of(a) == button_of(b),
    ensures
        a == b || (a matches KeyCode::Char(c) && b matches KeyCode::Char(d) && (c as int - d as int
            == 32 || d as int - c as int == 32)),
{
}

/// Esc quits, and c with the control key; r resets in lower and upper case. No
/// other key does either, and none does both or is a button as well.
pub proof fn quit_and_reset_have_their_keys(key: KeyEvent)
    ensures
        quits(key) <==> key.code == KeyCode::Esc || (key.code == KeyCode::Char('c') && key.ctrl),
        resets(key) <==> key.code == KeyCode::Char('r') || key.code == KeyCode::Char('R'),
        !(quits(key) && resets(key)),
        quits(key) || resets(key) ==> button_of(key.code) is None,
{
}

/// A button counts as let go once 120 milliseconds have passed since its last
/// press, and no sooner.
pub proof fn buttons_expire_after_120_milliseconds(at: u128, now: u128)
    ensures
        is_expired(at, now) <==> now >= at + 120_000_000,
{
}

/// A key for a button that goes down, or repeats, tells the joypad of one press and
/// notes when; one that comes up lets go of the button. Neither touches another
/// button or anything else.
pub proof fn keys_move_one_button(
    polled: Polled,
    key: KeyEvent,
    at: u128,
    button: JoypadButton,
    other: JoypadButton,
)
    requires
        button_of(key.code) == Some(button),
        other != button,
    ensures
        ({
            let after = polled.step(TimedEvent { event: TermEvent::Key(key), at });
            let (was, is) = (polled.state.pressed, after.state.pressed);
            let up = key.kind == KeyEventKind::Release;
            &&& is.contains_key(button) <==> !up
            &&& !up ==> is[button] == at
            &&& is.contains_key(other) <==> was.contains_key(other)
            &&& was.contains_key(other) ==> is[other] == was[other]
            &&& after.joypad == if !up {
                polled.joypad.push(JoypadEvent::Press(button))
            } else if was.contains_key(button) {
                polled.joypad.push(JoypadEvent::Release(button))
            } else {
                polled.joypad
            }
            &&& after.state.shutdown == polled.state.shutdown
            &&& after.state.force_redraw == polled.state.force_redraw
            &&& after.state.crc == polled.state.crc
            &&& after.resized == polled.resized
            &&& after.reset == polled.reset
        }),
{
}

/// What is no key for a button leaves all buttons and the joypad alone. A key that
/// quits changes nothing but that, one that resets nothing but that, a resize is
/// noted and passed on, and everything else changes nothing at all.
pub proof fn other_events_move_no_button(polled: Polled, timed: TimedEvent)
    requires
        timed.event matches TermEvent::Key(key) ==> button_of(key.code) is None,
    ensures
        ({
            let after = polled.step(timed);
            let quit = timed.event matches TermEvent::Key(key) && (key.code == KeyCode::Esc || (
            key.code == KeyCode::Char('c') && key.ctrl));
            let reset = timed.event matches TermEvent::Key(key) && (key.code == KeyCode::Char('r')
                || key.code == KeyCode::Char('R'));
            &&& after.state.pressed == polled.state.pressed
            &&& after.joypad == polled.joypad
            &&& after.state.crc == polled.state.crc
            &&& after.state.shutdown == (polled.state.shutdown || quit)
            &&& after.reset == (polled.reset || reset)
            &&& after.state.force_redraw == (polled.state.force_redraw || timed.event is Resize)
            &&& after.resized == match timed.event {
                TermEvent::Resize(cols, rows) => polled.resized.push((cols, rows)),
                _ => polled.resized,
            }
        }),
{
}

/// Events are answered one by one, in order: what comes of more of them is what
/// comes of the first ones, with the rest answered on top.
pub proof fn events_are_answered_in_order(
    state: TuiState,
    events: Seq<TimedEvent>,
    next: TimedEvent,
)
    ensures
        state.steps(events.push(next)) == state.steps(events).step(next),
        state.steps(seq![]).state == state,
        state.steps(seq![]).joypad.len() == 0,
        state.steps(seq![]).resized.len() == 0,
        !state.steps(seq![]).reset,
{
    assert(events.push(next).drop_last() =~= events);
}

proof fn lemma_release_expired_tail(polled: Polled, now: u128, n: nat)
    requires
        n <= 8,
    ensures
        ({
            let after = polled.release_expired(now, n).joypad;
            &&& polled.joypad.len() <= after.len()
            &&& after.take(polled.joypad.len() as int) == polled.joypad
            &&& forall|i: int| polled.joypad.len() <= i < after.len() ==> #[trigger] after[
                i
            ] is Release
        }),
    decreases n,
{
    if n > 0 {
        lemma_release_expired_tail(polled, now, (n - 1) as nat);
        let before = polled.release_expired(now, (n - 1) as nat).joypad;
        let after = polled.release_expired(now, n).joypad;
        if after.len() > before.len() {
            assert(after.take(polled.joypad.len() as int) =~= before.take(
                polled.joypad.len() as int,
            ));
            assert forall|i: int| polled.joypad.len() <= i < after.len() implies #[trigger] after[
                i
            ] is Release by {
                if i < before.len() {
                    assert(after[i] == before[i]);
                }
            }
        }
    } else {
        assert(polled.joypad.take(polled.joypad.len() as int) =~= polled.joypad);
    }
}

/// Behind what the events themselves tell the joypad, a poll only lets go of
/// buttons.
pub proof fn polls_end_with_releases(state: TuiState, events: Seq<TimedEvent>, now: u128)
    ensures
        ({
            let (told, all) = (state.steps(events).joypad, state.polled(events, now).joypad);
            &&& told.len() <= all.len()
            &&& all.take(told.len() as int) == told
            &&& forall|i: int| told.len() <= i < all.len() ==> #[trigger] all[i] is Release
        }),
{
    lemma_release_expired_tail(state.steps(events), now, 8);
}

/// `event` is a key that resets.
pub open spec fn is_reset(event: TermEvent) -> bool {
    event matches TermEvent::Key(key) && (key.code == KeyCode::Char('r') || key.code
        == KeyCode::Char('R'))
}

proof fn lemma_reset(state: TuiState, events: Seq<TimedEvent>)
    ensures
        state.steps(events).reset <==> exists|i: int|
            0 <= i < events.len() && is_reset(#[trigger] events[i].event),
    decreases events.len(),
{
    if events.len() > 0 {
        let before = events.drop_last();
        lemma_reset(state, before);
        let n = events.len() - 1;
        assert(forall|i: int| 0 <= i < n ==> #[trigger] events[i] == before[i]);
        if exists|i: int| 0 <= i < before.len() && is_reset(#[trigger] before[i].event) {
            let i = choose|i: int| 0 <= i < before.len() && is_reset(#[trigger] before[i].event);
            assert(is_reset(events[i].event));
        }
        if is_reset(events.last().event) {
            assert(is_reset(events[n].event));
        }
    }
}

/// The machine is reset exactly where a key that resets was among the events and
/// the player has not asked to quit; it is told nothing where neither is so.
pub proof fn resets_are_passed_on(state: TuiState, events: Seq<TimedEvent>, now: u128)
    ensures
        ({
            let polled = state.polled(events, now);
            let reset = exists|i: int|
                0 <= i < events.len() && is_reset(#[trigger] events[i].event);
            &&& polled.host_event() == HostEvent::Reset <==> reset && !polled.state.shutdown
            &&& polled.host_event() == HostEvent::Nothing <==> !reset && !polled.state.shutdown
        }),
{
    lemma_reset(state, events);
    lemma_release_expired_keeps(state.steps(events), now, 8);
}

} // verus!
