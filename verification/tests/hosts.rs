use nes_render::audio::SampleQueue;
use nes_render::audio::MAX_WAITING;
use nes_render::joypad::EmulationSpeed;
use nes_render::joypad::HostEvent;
use nes_render::joypad::JoypadButton;
use nes_render::joypad::JoypadEvent;
use nes_render::sdl::map_joypad;
use nes_render::sdl::window_size;
use nes_render::sdl::Keycode;
use nes_render::sdl::WindowAction;
use nes_render::sdl::WindowEvent;
use nes_render::tui::FrameAction;
use nes_render::tui::KeyCode;
use nes_render::tui::KeyEvent;
use nes_render::tui::KeyEventKind;
use nes_render::tui::TermEvent;
use nes_render::tui::TimedEvent;
use nes_render::tui::RELEASE_AFTER;
use nes_render::SdlHostPlatform;
use nes_render::TuiHost;

fn key(code: KeyCode, kind: KeyEventKind, at: u128) -> TimedEvent {
    TimedEvent {
        event: TermEvent::Key(KeyEvent {
            code,
            ctrl: false,
            kind,
        }),
        at,
    }
}

fn press(c: char, at: u128) -> TimedEvent {
    key(KeyCode::Char(c), KeyEventKind::Press, at)
}

fn release(c: char, at: u128) -> TimedEvent {
    key(KeyCode::Char(c), KeyEventKind::Release, at)
}

fn resize(cols: u16, rows: u16) -> TimedEvent {
    TimedEvent {
        event: TermEvent::Resize(cols, rows),
        at: 0,
    }
}

#[test]
fn keys_stand_for_buttons() {
    for (code, button) in [
        (KeyCode::Char('w'), Some(JoypadButton::Up)),
        (KeyCode::Char('W'), Some(JoypadButton::Up)),
        (KeyCode::Char('s'), Some(JoypadButton::Down)),
        (KeyCode::Char('A'), Some(JoypadButton::Left)),
        (KeyCode::Char('d'), Some(JoypadButton::Right)),
        (KeyCode::Char('l'), Some(JoypadButton::A)),
        (KeyCode::Char('K'), Some(JoypadButton::B)),
        (KeyCode::Char(' '), Some(JoypadButton::Select)),
        (KeyCode::Enter, Some(JoypadButton::Start)),
        (KeyCode::Char('x'), None),
        (KeyCode::Esc, None),
        (KeyCode::Other, None),
    ] {
        assert_eq!(TuiHost::map_button(code), button);
    }
}

#[test]
fn presses_and_releases_reach_the_joypad() {
    let mut host = TuiHost::new();
    let outcome = host.poll_events(&vec![press('w', 0), press('l', 5), release('w', 6)], 10);
    assert_eq!(
        outcome.joypad,
        [
            JoypadEvent::Press(JoypadButton::Up),
            JoypadEvent::Press(JoypadButton::A),
            JoypadEvent::Release(JoypadButton::Up),
        ]
    );
    assert!(outcome.resized.is_empty());
    assert_eq!(outcome.event, HostEvent::Nothing);
    // A button that is up is not let go again.
    let outcome = host.poll_events(&vec![release('w', 20)], 20);
    assert!(outcome.joypad.is_empty());
}

#[test]
fn held_buttons_expire() {
    let mut host = TuiHost::new();
    host.poll_events(&vec![press('w', 1000)], 1000);
    let outcome = host.poll_events(&vec![], 1000 + RELEASE_AFTER - 1);
    assert!(outcome.joypad.is_empty());
    let outcome = host.poll_events(&vec![], 1000 + RELEASE_AFTER);
    assert_eq!(
        outcome.joypad,
        [JoypadEvent::Release(JoypadButton::Up)]
    );
    let outcome = host.poll_events(&vec![], 1000 + 2 * RELEASE_AFTER);
    assert!(outcome.joypad.is_empty());
}

#[test]
fn repeats_keep_a_button_down() {
    let mut host = TuiHost::new();
    host.poll_events(&vec![press('d', 0)], 0);
    let again = key(KeyCode::Char('d'), KeyEventKind::Repeat, RELEASE_AFTER / 2);
    let outcome = host.poll_events(&vec![again], RELEASE_AFTER);
    assert_eq!(
        outcome.joypad,
        [JoypadEvent::Press(JoypadButton::Right)]
    );
    let outcome = host.poll_events(&vec![], RELEASE_AFTER * 2);
    assert_eq!(
        outcome.joypad,
        [JoypadEvent::Release(JoypadButton::Right)]
    );
}

#[test]
fn a_clock_that_lags_lets_nothing_go() {
    let mut host = TuiHost::new();
    let outcome = host.poll_events(&vec![press('a', u128::MAX)], 0);
    assert_eq!(outcome.joypad, [JoypadEvent::Press(JoypadButton::Left)]);
}

#[test]
fn quitting_lasts() {
    let mut host = TuiHost::new();
    let esc = key(KeyCode::Esc, KeyEventKind::Press, 0);
    assert_eq!(host.poll_events(&vec![esc], 0).event, HostEvent::Shutdown);
    // Even where a reset is asked for.
    assert_eq!(
        host.poll_events(&vec![press('r', 1)], 1).event,
        HostEvent::Shutdown
    );
}

#[test]
fn control_c_quits() {
    let mut host = TuiHost::new();
    assert_eq!(
        host.poll_events(&vec![press('c', 0)], 0).event,
        HostEvent::Nothing
    );
    let event = TermEvent::Key(KeyEvent {
        code: KeyCode::Char('c'),
        ctrl: true,
        kind: KeyEventKind::Press,
    });
    let outcome = host.poll_events(&vec![TimedEvent { event, at: 0 }], 0);
    assert_eq!(outcome.event, HostEvent::Shutdown);
}

#[test]
fn r_resets_once() {
    let mut host = TuiHost::new();
    assert_eq!(
        host.poll_events(&vec![press('R', 0)], 0).event,
        HostEvent::Reset
    );
    assert_eq!(host.poll_events(&vec![], 1).event, HostEvent::Nothing);
}

#[test]
fn frames_on_screen_are_skipped() {
    let mut host = TuiHost::new();
    assert_eq!(host.render(b"one"), FrameAction::Write);
    assert_eq!(host.render(b"one"), FrameAction::Skip);
    assert_eq!(host.render(b"two"), FrameAction::Write);
    assert_eq!(host.render(b"one"), FrameAction::Write);
    // The checksum of "one" is that of CRC-32.
    assert_eq!(host.render_crc(0x7a6c86f1), FrameAction::Skip);
    // So is that of the usual test input, and of no input at all.
    assert_eq!(host.render(b"123456789"), FrameAction::Write);
    assert_eq!(host.render_crc(0xcbf43926), FrameAction::Skip);
    assert_eq!(TuiHost::new().render(b""), FrameAction::Skip);
}

#[test]
fn a_resize_forces_one_redraw() {
    let mut host = TuiHost::new();
    assert_eq!(host.render_crc(5), FrameAction::Write);
    let outcome = host.poll_events(&vec![resize(80, 24), resize(100, 30)], 0);
    // The renderer is told of both.
    assert_eq!(outcome.resized, [(80, 24), (100, 30)]);
    assert_eq!(outcome.event, HostEvent::Nothing);
    assert_eq!(host.render_crc(5), FrameAction::ClearAndWrite);
    assert_eq!(host.render_crc(5), FrameAction::Skip);
}

#[test]
fn window_keys_stand_for_buttons() {
    for (keycode, button) in [
        (Keycode::W, JoypadButton::Up),
        (Keycode::A, JoypadButton::Left),
        (Keycode::S, JoypadButton::Down),
        (Keycode::D, JoypadButton::Right),
        (Keycode::K, JoypadButton::B),
        (Keycode::L, JoypadButton::A),
        (Keycode::Return, JoypadButton::Start),
        (Keycode::Space, JoypadButton::Select),
    ] {
        assert_eq!(
            map_joypad(WindowEvent::KeyDown(keycode)),
            Some(JoypadEvent::Press(button))
        );
        assert_eq!(
            map_joypad(WindowEvent::KeyUp(keycode)),
            Some(JoypadEvent::Release(button))
        );
        assert_eq!(
            SdlHostPlatform::new().on_event(WindowEvent::KeyUp(keycode)),
            WindowAction::Joypad(JoypadEvent::Release(button))
        );
    }
    assert_eq!(map_joypad(WindowEvent::Quit), None);
    assert_eq!(map_joypad(WindowEvent::KeyDown(Keycode::R)), None);
}

#[test]
fn window_keys_drive_the_machine() {
    let mut host = SdlHostPlatform::new();
    for (event, answer) in [
        (WindowEvent::Quit, HostEvent::Shutdown),
        (WindowEvent::KeyDown(Keycode::Q), HostEvent::Shutdown),
        (WindowEvent::KeyDown(Keycode::Escape), HostEvent::Shutdown),
        (WindowEvent::KeyDown(Keycode::R), HostEvent::Reset),
        (
            WindowEvent::KeyDown(Keycode::Num1),
            HostEvent::ChangeSpeed(EmulationSpeed::Normal),
        ),
        (
            WindowEvent::KeyDown(Keycode::Num2),
            HostEvent::ChangeSpeed(EmulationSpeed::Fast(2)),
        ),
        (
            WindowEvent::KeyDown(Keycode::Num3),
            HostEvent::ChangeSpeed(EmulationSpeed::Fast(3)),
        ),
        (
            WindowEvent::KeyDown(Keycode::Num0),
            HostEvent::ChangeSpeed(EmulationSpeed::Uncapped),
        ),
    ] {
        assert_eq!(host.on_event(event), WindowAction::Return(answer));
    }
    for event in [
        WindowEvent::Other,
        WindowEvent::KeyDown(Keycode::Other),
        WindowEvent::KeyUp(Keycode::Q),
        WindowEvent::KeyUp(Keycode::V),
    ] {
        assert_eq!(host.on_event(event), WindowAction::Ignore);
    }
    assert!(host.vsync_enabled());
}

#[test]
fn v_toggles_vsync() {
    let mut host = SdlHostPlatform::new();
    let v = WindowEvent::KeyDown(Keycode::V);
    assert_eq!(host.on_event(v), WindowAction::SetVsync(false));
    assert!(!host.vsync_enabled());
    assert_eq!(
        host.notice(WindowAction::SetVsync(false)).as_deref(),
        Some("VSync: false")
    );
    assert_eq!(host.on_event(v), WindowAction::SetVsync(true));
    assert!(host.vsync_enabled());
}

#[test]
fn speed_changes_are_announced() {
    let host = SdlHostPlatform::new();
    let notice = |speed| host.notice(WindowAction::Return(HostEvent::ChangeSpeed(speed)));
    assert_eq!(
        notice(EmulationSpeed::Normal).as_deref(),
        Some("Speed: Normal (authentic NES timing, VSync true)")
    );
    assert_eq!(
        notice(EmulationSpeed::Fast(2)).as_deref(),
        Some("Speed: 2x (VSync true)")
    );
    assert_eq!(
        notice(EmulationSpeed::Fast(3)).as_deref(),
        Some("Speed: 3x (VSync true)")
    );
    assert_eq!(
        notice(EmulationSpeed::Uncapped).as_deref(),
        Some("Speed: Uncapped (max performance, VSync true)")
    );
    assert_eq!(host.notice(WindowAction::Return(HostEvent::Reset)), None);
    assert_eq!(host.notice(WindowAction::Ignore), None);
}

#[test]
fn the_window_is_four_times_the_picture() {
    assert_eq!(window_size(), (960, 896));
}

#[test]
fn samples_are_played_in_turn() {
    let mut queue = SampleQueue::new();
    for sample in [1, 2, 3] {
        queue.audio_sample(sample);
    }
    let mut out = [9; 2];
    queue.callback(&mut out, 0);
    assert_eq!(out, [1, 2]);
    let mut out = [9; 3];
    queue.callback(&mut out, -1);
    assert_eq!(out, [3, -1, -1]);
}

#[test]
fn old_samples_make_room() {
    let mut queue = SampleQueue::new();
    let count = MAX_WAITING + 11;
    for sample in 0..count {
        queue.audio_sample(sample);
    }
    let mut out = vec![0; count];
    queue.callback(&mut out, usize::MAX);
    // One more than the limit may wait.
    assert_eq!(out[0], 10);
    assert_eq!(out[MAX_WAITING], count - 1);
    assert_eq!(out[MAX_WAITING + 1], usize::MAX);
}

#[test]
fn a_batch_of_window_events_ends_at_the_first_answer() {
    let mut host = SdlHostPlatform::new();
    let events = [
        WindowEvent::KeyDown(Keycode::W),
        WindowEvent::KeyDown(Keycode::V),
        WindowEvent::KeyUp(Keycode::W),
        WindowEvent::Other,
        WindowEvent::KeyDown(Keycode::R),
        WindowEvent::KeyDown(Keycode::V),
        WindowEvent::Quit,
    ];
    let mut joypad = Vec::new();
    let mut answer = HostEvent::Nothing;
    let mut taken = 0;
    for event in events {
        taken += 1;
        match host.on_event(event) {
            WindowAction::Joypad(event) => joypad.push(event),
            WindowAction::Return(event) => {
                answer = event;
                break;
            }
            WindowAction::SetVsync(_) | WindowAction::Ignore => (),
        }
    }
    assert_eq!(answer, HostEvent::Reset);
    assert_eq!(taken, 5);
    assert_eq!(
        joypad,
        [
            JoypadEvent::Press(JoypadButton::Up),
            JoypadEvent::Release(JoypadButton::Up),
        ]
    );
    assert!(!host.vsync_enabled());
}

#[test]
fn a_button_is_released_once() {
    let mut host = TuiHost::new();
    let events = vec![release('l', 0), press('l', 1), release('l', 2), release('l', 3)];
    assert_eq!(
        host.poll_events(&events, 4).joypad,
        [
            JoypadEvent::Press(JoypadButton::A),
            JoypadEvent::Release(JoypadButton::A),
        ]
    );
}
