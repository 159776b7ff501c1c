use draw_map::input::{
    Canvas, ContextMenu, Event, Key, Menu, ScreenPt, Text, TopMenu, UserInput,
};

fn canvas() -> Canvas {
    Canvas {
        window_width: 800,
        window_height: 600,
        cursor: ScreenPt { x: 5, y: 6 },
    }
}

#[test]
fn key_press_is_claimed_once() {
    let mut c = canvas();
    let mut input = UserInput::new(
        Event::KeyPress(Key::Char(b'a')),
        ContextMenu::Inactive,
        None,
        &mut c,
    );
    assert!(input.key_pressed(Key::Char(b'a'), "accelerate"));
    assert!(input.has_been_consumed());
    assert!(!input.key_pressed(Key::Char(b'a'), "accelerate again"));
    assert!(!input.key_pressed(Key::Char(b'b'), "brake"));
}

#[test]
fn key_release_is_observed() {
    let mut c = canvas();
    let mut input = UserInput::new(
        Event::KeyRelease(Key::Space),
        ContextMenu::Inactive,
        None,
        &mut c,
    );
    assert!(input.key_released(Key::Space));
    assert!(!input.key_released(Key::Space));
}

#[test]
fn window_resize_updates_canvas() {
    let mut c = canvas();
    let _ = UserInput::new(
        Event::WindowResized(1024, 768),
        ContextMenu::Inactive,
        None,
        &mut c,
    );
    assert_eq!(c.window_width, 1024);
    assert_eq!(c.window_height, 768);
}

#[test]
fn right_click_starts_context_menu_at_cursor() {
    let mut c = canvas();
    let input = UserInput::new(
        Event::RightMouseButtonDown,
        ContextMenu::Inactive,
        None,
        &mut c,
    );
    assert!(input.event_consumed);
    match &input.context_menu {
        ContextMenu::Building(origin, actions) => {
            assert_eq!(*origin, ScreenPt { x: 5, y: 6 });
            assert!(actions.is_empty());
        }
        _ => panic!("expected a collecting context menu"),
    }
}

#[test]
fn context_menu_collects_then_displays_then_claims() {
    let mut c = canvas();
    // Frame 1: right click opens collection.
    let mut input = UserInput::new(
        Event::RightMouseButtonDown,
        ContextMenu::Inactive,
        None,
        &mut c,
    );
    assert!(!input.contextual_action(Key::Char(b'x'), "explode"));
    assert!(!input.contextual_action(Key::Char(b'y'), "yield"));
    // The same hotkey offered again for the same action is fine.
    assert!(!input.contextual_action(Key::Char(b'x'), "explode"));
    let cm = input.context_menu.maybe_build(&c);
    assert!(matches!(cm, ContextMenu::Displaying(_)));

    // Frame 2: pressing a choice's hotkey records the click.
    let mut input = UserInput::new(Event::KeyPress(Key::Char(b'y')), cm, None, &mut c);
    assert!(matches!(input.context_menu, ContextMenu::Clicked(Key::Char(b'y'))));
    // The action's owner claims the click.
    assert!(input.contextual_action(Key::Char(b'y'), "yield"));
    assert!(matches!(input.context_menu, ContextMenu::Inactive));
}

#[test]
fn escape_dissolves_displayed_menu() {
    let mut c = canvas();
    let menu = Menu::new(
        vec![(Key::Char(b'z'), "zoom".to_string())],
        ScreenPt { x: 1, y: 2 },
    );
    let input = UserInput::new(
        Event::KeyPress(Key::Escape),
        ContextMenu::Displaying(menu),
        None,
        &mut c,
    );
    assert!(matches!(input.context_menu, ContextMenu::Inactive));
    assert!(input.event_consumed);
}

#[test]
fn empty_context_menu_dissolves_instead_of_displaying() {
    let c = canvas();
    let cm = ContextMenu::Building(ScreenPt { x: 1, y: 1 }, vec![]);
    assert!(matches!(cm.maybe_build(&c), ContextMenu::Inactive));
}

#[test]
fn probes_fail_while_context_menu_is_up() {
    let mut c = canvas();
    let menu = Menu::new(
        vec![(Key::Char(b'z'), "zoom".to_string())],
        ScreenPt { x: 1, y: 2 },
    );
    let mut input = UserInput::new(
        Event::MouseMovedTo(ScreenPt { x: 9, y: 9 }),
        ContextMenu::Displaying(menu),
        None,
        &mut c,
    );
    assert!(!input.key_pressed(Key::Char(b'z'), "zoom"));
    assert_eq!(input.get_moved_mouse(), None);
}

#[test]
fn top_menu_hotkey_chooses_action() {
    let mut c = canvas();
    let menu = TopMenu {
        actions: vec![
            ("save".to_string(), Some(Key::Char(b's'))),
            ("quit".to_string(), Some(Key::Char(b'q'))),
        ],
        valid_actions: vec!["stale".to_string()],
    };
    let mut input = UserInput::new(
        Event::KeyPress(Key::Char(b'q')),
        ContextMenu::Inactive,
        Some(menu),
        &mut c,
    );
    assert!(input.event_consumed);
    assert_eq!(input.chosen_action.as_deref(), Some("quit"));
    assert!(input.action_chosen("quit"));
    assert!(input.chosen_action.is_none());
}

#[test]
fn action_chosen_falls_back_to_hotkey() {
    let mut c = canvas();
    let menu = TopMenu {
        actions: vec![("save".to_string(), Some(Key::Char(b's')))],
        valid_actions: vec![],
    };
    let mut input = UserInput::new(
        Event::KeyPress(Key::Char(b's')),
        ContextMenu::Inactive,
        Some(menu),
        &mut c,
    );
    // The top menu itself already claims its hotkey.
    assert!(input.action_chosen("save"));
}

#[test]
fn mouse_move_and_update_events() {
    let mut c = canvas();
    let input = UserInput::new(
        Event::MouseMovedTo(ScreenPt { x: 30, y: 40 }),
        ContextMenu::Inactive,
        None,
        &mut c,
    );
    assert_eq!(input.get_moved_mouse(), Some(ScreenPt { x: 30, y: 40 }));

    let mut input = UserInput::new(Event::Update, ContextMenu::Inactive, None, &mut c);
    assert!(input.nonblocking_is_update_event());
    input.use_update_event();
    assert!(!input.nonblocking_is_update_event());
}

#[test]
fn window_cursor_events() {
    let mut c = canvas();
    let mut input = UserInput::new(
        Event::WindowLostCursor,
        ContextMenu::Inactive,
        None,
        &mut c,
    );
    assert!(input.window_lost_cursor());
}

#[test]
fn populate_osd_drains_important_actions() {
    let mut c = canvas();
    let mut input = UserInput::new(
        Event::KeyPress(Key::Char(b'a')),
        ContextMenu::Inactive,
        None,
        &mut c,
    );
    assert!(input.key_pressed(Key::Char(b'a'), "accelerate"));
    assert!(!input.key_pressed(Key::Char(b'b'), "brake"));
    let mut osd = Text::new();
    input.populate_osd(&mut osd);
    assert_eq!(osd.lines.len(), 2);
    assert_eq!(osd.lines[0].0, Key::Char(b'a'));
    assert_eq!(osd.lines[0].1, "accelerate");
    assert_eq!(osd.lines[1].1, "brake");
    let mut osd2 = Text::new();
    input.populate_osd(&mut osd2);
    assert!(osd2.lines.is_empty());
}
