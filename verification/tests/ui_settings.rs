use yuvdiff::ui::{
    fetch_inputs, Button, Channel, FrameAction, InputEvent, UiSettings, UserInput, ViewFrame, KEY_A, KEY_B,
    KEY_C, KEY_D, KEY_G, KEY_N, KEY_P, KEY_Q, KEY_R, KEY_U, KEY_V, KEY_Y,
};

fn frame_button(w: i32, h: i32) -> Vec<Button> {
    vec![Button::new(0, 0, w, h)]
}

#[test]
fn defaults() {
    let s = UiSettings::defaults();
    assert!(!s.show_grid);
    assert_eq!(s.channel, Channel::Y);
    assert_eq!(s.viewed, ViewFrame::FrameA);
    assert_eq!(s.mblock_size, 16);
    assert_eq!(s.diff_multiplier, 5);
    assert_eq!((s.mblock_x, s.mblock_y), (0, 0));
}

#[test]
fn set_channel_words() {
    let mut s = UiSettings::defaults();
    for (word, ch) in [
        ("C", Channel::YUV),
        ("c", Channel::YUV),
        ("Y", Channel::Y),
        ("y", Channel::Y),
        ("U", Channel::U),
        ("u", Channel::U),
        ("V", Channel::V),
        ("v", Channel::V),
    ] {
        assert_eq!(s.set_channel(word), Ok(()));
        assert_eq!(s.channel, ch);
    }
    let before = s;
    assert_eq!(s.set_channel("x"), Err("Invalid channel argument"));
    assert_eq!(s.set_channel("yy"), Err("Invalid channel argument"));
    assert_eq!(s.set_channel(""), Err("Invalid channel argument"));
    assert_eq!(s, before);
}

#[test]
fn set_view_words() {
    let mut s = UiSettings::defaults();
    for (word, f) in [
        ("A", ViewFrame::FrameA),
        ("a", ViewFrame::FrameA),
        ("B", ViewFrame::FrameB),
        ("b", ViewFrame::FrameB),
        ("D", ViewFrame::Diff),
        ("d", ViewFrame::Diff),
    ] {
        assert_eq!(s.set_view(word), Ok(()));
        assert_eq!(s.viewed, f);
    }
    let before = s;
    assert_eq!(s.set_view("c"), Err("Incorrect view argument"));
    assert_eq!(s.set_view("ab"), Err("Incorrect view argument"));
    assert_eq!(s, before);
}

#[test]
fn simple_setters() {
    let mut s = UiSettings::defaults();
    s.set_diff_multiplier(9);
    assert_eq!(s.diff_multiplier, 9);
    s.show_channel(Channel::V);
    assert_eq!(s.channel, Channel::V);
    s.show_frame(ViewFrame::Diff);
    assert_eq!(s.viewed, ViewFrame::Diff);
}

#[test]
fn toggle_grid_twice_restores() {
    let mut s = UiSettings::defaults();
    let before = s;
    s.toggle_grid();
    assert!(s.show_grid);
    s.toggle_grid();
    assert_eq!(s, before);
}

#[test]
fn mblock_set_rounds_down() {
    let mut s = UiSettings::defaults();
    s.mblock_set(37, 15);
    assert_eq!((s.mblock_x, s.mblock_y), (32, 0));
    s.mblock_set(16, 47);
    assert_eq!((s.mblock_x, s.mblock_y), (16, 32));
    s.mblock_set(0, 0);
    assert_eq!((s.mblock_x, s.mblock_y), (0, 0));
}

#[test]
fn button_inside_is_strict() {
    let b = Button::new(0, 0, 100, 50);
    assert_eq!(b.x(), 0);
    assert_eq!(b.y(), 0);
    assert!(b.inside(1, 1));
    assert!(b.inside(99, 49));
    assert!(!b.inside(0, 10));
    assert!(!b.inside(100, 10));
    assert!(!b.inside(10, 50));
    assert!(!b.inside(10, 0));
}

#[test]
fn clicks_select_relative_to_the_button() {
    let mut s = UiSettings::defaults();
    let buttons = vec![Button::new(10, 20, 110, 120)];
    s.check_clicks(&buttons, 50, 60);
    assert_eq!((s.mblock_x, s.mblock_y), (32, 32));
    s.check_clicks(&buttons, 5, 60);
    assert_eq!((s.mblock_x, s.mblock_y), (32, 32));
}

#[test]
fn keys_and_events_map_to_inputs() {
    assert_eq!(UserInput::from_key(KEY_Q), Some(UserInput::Quit));
    assert_eq!(UserInput::from_key(KEY_N), Some(UserInput::Next));
    assert_eq!(UserInput::from_key(KEY_P), Some(UserInput::Prev));
    assert_eq!(UserInput::from_key(KEY_R), Some(UserInput::FirstFrame));
    assert_eq!(UserInput::from_key(KEY_G), Some(UserInput::GridToggle));
    assert_eq!(UserInput::from_key(KEY_C), Some(UserInput::ShowChannel(Channel::YUV)));
    assert_eq!(UserInput::from_key(KEY_Y), Some(UserInput::ShowChannel(Channel::Y)));
    assert_eq!(UserInput::from_key(KEY_U), Some(UserInput::ShowChannel(Channel::U)));
    assert_eq!(UserInput::from_key(KEY_V), Some(UserInput::ShowChannel(Channel::V)));
    assert_eq!(UserInput::from_key(KEY_A), Some(UserInput::ShowFrame(ViewFrame::FrameA)));
    assert_eq!(UserInput::from_key(KEY_B), Some(UserInput::ShowFrame(ViewFrame::FrameB)));
    assert_eq!(UserInput::from_key(KEY_D), Some(UserInput::ShowFrame(ViewFrame::Diff)));
    assert_eq!(UserInput::from_key(KEY_Q as i32 - 32), None);
    assert_eq!(UserInput::from_key('z' as i32), None);
    assert_eq!(KEY_Q, 'q' as i32);
    assert_eq!(UserInput::from_event(InputEvent::Quit), Some(UserInput::Quit));
    assert_eq!(UserInput::from_event(InputEvent::KeyDown(None)), None);
    assert_eq!(
        UserInput::from_event(InputEvent::MouseUp { left: true, x: 3, y: 4 }),
        Some(UserInput::Click(3, 4))
    );
    assert_eq!(UserInput::from_event(InputEvent::MouseUp { left: false, x: 3, y: 4 }), None);
    assert_eq!(UserInput::from_event(InputEvent::Other), None);
}

#[test]
fn fetch_inputs_keeps_order_and_drops_others() {
    let events = vec![
        InputEvent::Other,
        InputEvent::KeyDown(Some(KEY_N)),
        InputEvent::MouseUp { left: true, x: 7, y: 8 },
        InputEvent::KeyDown(Some(1)),
        InputEvent::Quit,
    ];
    assert_eq!(
        fetch_inputs(&events),
        vec![UserInput::Next, UserInput::Click(7, 8), UserInput::Quit]
    );
    assert!(fetch_inputs(&vec![]).is_empty());
}

#[test]
fn process_inputs_applies_settings_and_hands_back_frame_requests() {
    let mut s = UiSettings::defaults();
    let buttons = frame_button(352, 288);
    let inputs = vec![
        UserInput::Next,
        UserInput::ShowChannel(Channel::U),
        UserInput::GridToggle,
        UserInput::Quit,
        UserInput::Prev,
        UserInput::Click(40, 70),
        UserInput::ShowFrame(ViewFrame::Diff),
        UserInput::FirstFrame,
    ];
    let out = s.process_inputs(&buttons, &inputs);
    assert!(out.quit);
    assert_eq!(out.frame_actions, vec![FrameAction::Next, FrameAction::Prev, FrameAction::FirstFrame]);
    assert_eq!(s.channel, Channel::U);
    assert!(s.show_grid);
    assert_eq!(s.viewed, ViewFrame::Diff);
    assert_eq!((s.mblock_x, s.mblock_y), (32, 64));
}

#[test]
fn process_inputs_without_quit() {
    let mut s = UiSettings::defaults();
    let buttons = frame_button(352, 288);
    let out = s.process_inputs(&buttons, &vec![UserInput::GridToggle, UserInput::GridToggle]);
    assert!(!out.quit);
    assert!(out.frame_actions.is_empty());
    assert_eq!(s, UiSettings::defaults());
}

#[test]
fn clicks_stay_inside_the_frame() {
    let mut s = UiSettings::defaults();
    let buttons = frame_button(40, 20);
    let inputs = vec![UserInput::Click(39, 19), UserInput::Click(40, 5), UserInput::Click(-3, 5)];
    s.process_inputs(&buttons, &inputs);
    assert_eq!((s.mblock_x, s.mblock_y), (32, 16));
    assert!(s.mblock_x < 40 && s.mblock_y < 20);
}
