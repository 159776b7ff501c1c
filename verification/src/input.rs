//! Per-frame user input: as callers probe for input, the probes and their
//! outcomes are recorded, so the frame can build an on-screen display of
//! possible actions. A right click builds a context menu of the actions
//! offered at the cursor; a top menu bar can claim a key press first.

use vstd::prelude::*;

verus! {

/// A key on the keyboard.
#[derive(Clone, Copy, PartialEq, Eq, Structural, Debug)]
pub enum Key {
    Escape,
    Enter,
    Space,
    Char(u8),
}

/// A point in window space, in whole pixels.
#[derive(Clone, Copy, PartialEq, Eq, Structural, Debug)]
pub struct ScreenPt {
    pub x: i64,
    pub y: i64,
}

/// One windowing event, as the event loop hands it over.
#[derive(Clone, Copy, PartialEq, Eq, Structural, Debug)]
pub enum Event {
    KeyPress(Key),
    KeyRelease(Key),
    LeftMouseButtonDown,
    LeftMouseButtonUp,
    RightMouseButtonDown,
    WindowGainedCursor,
    WindowLostCursor,
    MouseMovedTo(ScreenPt),
    MouseWheelScroll(i64),
    Update,
    WindowResized(i64, i64),
}

/// What the window knows between events: its size and the cursor position.
#[derive(Clone, Copy, PartialEq, Eq, Structural, Debug)]
pub struct Canvas {
    pub window_width: i64,
    pub window_height: i64,
    pub cursor: ScreenPt,
}

impl Canvas {
    pub fn get_cursor_in_screen_space(&self) -> (r: ScreenPt)
        ensures
            r == self.cursor,
    {
        self.cursor
    }
}

/// What a menu makes of one event.
pub enum InputResult {
    Canceled,
    StillActive,
    Done(String, Key),
}

/// A displayed context menu: its anchor and its choices, each a hotkey with
/// the action it stands for.
pub struct Menu {
    pub origin: ScreenPt,
    pub choices: Vec<(Key, String)>,
}

/// A list of hotkey/action pairs names this key.
pub open spec fn has_key(choices: Seq<(Key, String)>, k: Key) -> bool {
    exists|i: int| 0 <= i < choices.len() && (#[trigger] choices[i]).0 == k
}

impl Menu {
    /// A menu over these choices, anchored at this point.
    pub fn new(choices: Vec<(Key, String)>, origin: ScreenPt) -> (r: Menu)
        ensures
            r.choices == choices,
            r.origin == origin,
    {
        Menu { choices, origin }
    }

    /// The menu's reaction to one event: escape cancels it, a choice's
    /// hotkey picks that choice, anything else leaves it on screen.
    pub fn event(&self, ev: Event) -> (r: InputResult)
        ensures
            match r {
                InputResult::Canceled => ev == Event::KeyPress(Key::Escape),
                InputResult::Done(a, k) => ev == Event::KeyPress(k) && k != Key::Escape && exists|
                    i: int,
                |
                    0 <= i < self.choices@.len() && (#[trigger] self.choices@[i]).0 == k
                        && self.choices@[i].1@ == a@,
                InputResult::StillActive => !(ev matches Event::KeyPress(k0) && (k0 == Key::Escape
                    || has_key(self.choices@, k0))),
            },
    {
        match ev {
            Event::KeyPress(k) => {
                if k == Key::Escape {
                    return InputResult::Canceled;
                }
                let mut i: usize = 0;
                while i < self.choices.len()
                    invariant
                        0 <= i <= self.choices@.len(),
                        forall|j: int| 0 <= j < i ==> (#[trigger] self.choices@[j]).0 != k,
                        ev == Event::KeyPress(k),
                        k != Key::Escape,
                    decreases self.choices@.len() - i,
                {
                    if self.choices[i].0 == k {
                        let action = self.choices[i].1.clone();
                        proof {
                            assert((#[trigger] self.choices@[i as int]).0 == k
                                && self.choices@[i as int].1@ == action@);
                        }
                        return InputResult::Done(action, k);
                    }
                    i += 1;
                }
                InputResult::StillActive
            },
            _ => InputResult::StillActive,
        }
    }
}

/// The menu bar across the top of the window: each action with its optional
/// hotkey, plus which actions the current frame has offered.
pub struct TopMenu {
    pub actions: Vec<(String, Option<Key>)>,
    pub valid_actions: Vec<String>,
}

/// The first top-menu entry whose action carries this name, if any: its
/// optional hotkey.
pub open spec fn find_action(
    actions: Seq<(String, Option<Key>)>,
    name: Seq<char>,
) -> Option<Option<Key>>
    decreases actions.len(),
{
    if actions.len() == 0 {
        None
    } else if actions[0].0@ == name {
        Some(actions[0].1)
    } else {
        find_action(actions.drop_first(), name)
    }
}

/// A key press on this key would choose some top-menu action.
pub open spec fn top_menu_hit(actions: Seq<(String, Option<Key>)>, ev: Event) -> bool {
    ev matches Event::KeyPress(k) && exists|i: int|
        0 <= i < actions.len() && (#[trigger] actions[i]).1 == Some(k)
}

impl TopMenu {
    /// The bar's reaction to one event: a key press on an action's hotkey
    /// chooses that action; everything else passes through.
    pub fn event_key(&self, ev: Event) -> (r: Option<(String, Key)>)
        ensures
            match r {
                Some((a, k)) => ev == Event::KeyPress(k) && exists|i: int|
                    0 <= i < self.actions@.len() && (#[trigger] self.actions@[i]).1 == Some(k)
                        && self.actions@[i].0@ == a@,
                None => !top_menu_hit(self.actions@, ev),
            },
    {
        match ev {
            Event::KeyPress(k) => {
                let mut i: usize = 0;
                while i < self.actions.len()
                    invariant
                        0 <= i <= self.actions@.len(),
                        forall|j: int| 0 <= j < i ==> (#[trigger] self.actions@[j]).1 != Some(k),
                        ev == Event::KeyPress(k),
                    decreases self.actions@.len() - i,
                {
                    match &self.actions[i].1 {
                        Some(hot) => {
                            if *hot == k {
                                let action = self.actions[i].0.clone();
                                proof {
                                    assert((#[trigger] self.actions@[i as int]).1 == Some(k)
                                        && self.actions@[i as int].0@ == action@);
                                }
                                return Some((action, k));
                            }
                        },
                        None => {},
                    }
                    i += 1;
                }
                None
            },
            _ => None,
        }
    }
}

/// The context-menu state machine: nothing; collecting the actions offered
/// at the cursor after a right click; displayed; or clicked, waiting for the
/// click's owner to claim it.
pub enum ContextMenu {
    Inactive,
    Building(ScreenPt, Vec<(Key, String)>),
    Displaying(Menu),
    Clicked(Key),
}

impl ContextMenu {
    /// Once a frame's right-click actions are all collected, turn them into
    /// a displayed menu; an empty collection dissolves. Other states pass
    /// through.
    pub fn maybe_build(self, canvas: &Canvas) -> (r: ContextMenu)
        ensures
            match self {
                ContextMenu::Building(origin, actions) => {
                    if actions@.len() == 0 {
                        r is Inactive
                    } else {
                        r matches ContextMenu::Displaying(m) && m.origin == origin && m.choices
                            == actions
                    }
                },
                _ => r == self,
            },
    {
        match self {
            ContextMenu::Building(origin, actions) => {
                if actions.len() == 0 {
                    ContextMenu::Inactive
                } else {
                    ContextMenu::Displaying(Menu::new(actions, origin))
                }
            },
            _ => self,
        }
    }

    /// Any state but `Inactive` captures most input.
    pub open spec fn active_spec(&self) -> bool {
        !(self is Inactive)
    }
}

/// Pending on-screen-display entries: a key and what pressing it would do.
/// The UI renders them; the library only collects them.
pub struct Text {
    pub lines: Vec<(Key, String)>,
}

impl Text {
    pub fn new() -> (r: Text)
        ensures
            r.lines@ == Seq::<(Key, String)>::empty(),
    {
        Text { lines: Vec::new() }
    }
}

/// One frame's input: the event, whether something already claimed it, the
/// probes recorded so far, and the menu state carried across frames.
pub struct UserInput {
    pub event: Event,
    pub event_consumed: bool,
    pub important_actions: Vec<(Key, String)>,
    pub reserved_keys: Vec<(Key, String)>,
    pub context_menu: ContextMenu,
    pub top_menu: Option<TopMenu>,
    pub chosen_action: Option<String>,
}

impl UserInput {
    /// Wraps one event for a frame. A window resize updates the canvas
    /// first. An active top menu gets the event before anything else: a hit
    /// on one of its hotkeys chooses that action and consumes the event. A
    /// right click starts collecting a context menu at the cursor. A
    /// displayed context menu consumes the event itself: escape dissolves
    /// it, a choice's hotkey records the click. A collecting or clicked
    /// menu state is accepted only when the top menu claims the event, the
    /// one way such a frame can end at once.
    pub fn new(
        event: Event,
        context_menu: ContextMenu,
        top_menu: Option<TopMenu>,
        canvas: &mut Canvas,
    ) -> (r: UserInput)
        requires
            (context_menu is Building || context_menu is Clicked) ==> (top_menu matches Some(menu)
                && top_menu_hit(menu.actions@, event)),
        ensures
            r.event == event,
            r.important_actions@ == Seq::<(Key, String)>::empty(),
            r.reserved_keys@ == Seq::<(Key, String)>::empty(),
            (match event {
                Event::WindowResized(w, h) => final(canvas).window_width == w
                    && final(canvas).window_height == h && final(canvas).cursor == old(
                    canvas,
                ).cursor,
                _ => *final(canvas) == *old(canvas),
            }),
            (match top_menu {
                Some(menu) => {
                    if top_menu_hit(menu.actions@, event) {
                        &&& r.event_consumed
                        &&& r.chosen_action matches Some(a) && (exists|i: int|
                            0 <= i < menu.actions@.len() && (#[trigger] menu.actions@[i]).1
                                == Some(event->KeyPress_0) && menu.actions@[i].0@ == a@)
                        &&& r.context_menu == context_menu
                        &&& r.top_menu matches Some(m2) && m2.actions == menu.actions
                            && m2.valid_actions@.len() == 0
                    } else {
                        &&& r.chosen_action is None
                        &&& r.top_menu matches Some(m2) && m2.actions == menu.actions
                            && m2.valid_actions@.len() == 0
                        &&& new_after_menus(r, event, context_menu, *old(canvas))
                    }
                },
                None => (r.chosen_action is None) && (r.top_menu is None) && new_after_menus(
                    r,
                    event,
                    context_menu,
                    *old(canvas),
                ),
            }),
    {
        if let Event::WindowResized(w, h) = event {
            canvas.window_width = w;
            canvas.window_height = h;
        }
        let mut final_top: Option<TopMenu> = None;
        match top_menu {
            Some(mut menu) => {
                let hit = menu.event_key(event);
                menu.valid_actions.clear();
                match hit {
                    Some((action, _key)) => {
                        return UserInput {
                            event,
                            event_consumed: true,
                            important_actions: Vec::new(),
                            reserved_keys: Vec::new(),
                            context_menu,
                            top_menu: Some(menu),
                            chosen_action: Some(action),
                        };
                    },
                    None => {
                        final_top = Some(menu);
                    },
                }
            },
            None => {},
        }
        // A right click starts a fresh context menu, unless one is already up.
        let cm_active = !matches!(context_menu, ContextMenu::Inactive);
        if !cm_active && event == Event::RightMouseButtonDown {
            return UserInput {
                event,
                event_consumed: true,
                important_actions: Vec::new(),
                reserved_keys: Vec::new(),
                context_menu: ContextMenu::Building(canvas.get_cursor_in_screen_space(), Vec::new()),
                top_menu: final_top,
                chosen_action: None,
            };
        }
        match context_menu {
            ContextMenu::Displaying(menu) => {
                let cm = match menu.event(event) {
                    InputResult::Canceled => ContextMenu::Inactive,
                    InputResult::StillActive => ContextMenu::Displaying(menu),
                    InputResult::Done(_, hotkey) => ContextMenu::Clicked(hotkey),
                };
                UserInput {
                    event,
                    event_consumed: true,
                    important_actions: Vec::new(),
                    reserved_keys: Vec::new(),
                    context_menu: cm,
                    top_menu: final_top,
                    chosen_action: None,
                }
            },
            cm => UserInput {
                event,
                event_consumed: false,
                important_actions: Vec::new(),
                reserved_keys: Vec::new(),
                context_menu: cm,
                top_menu: final_top,
                chosen_action: None,
            },
        }
    }

    /// Whether an active context menu is capturing input.
    fn context_menu_active(&self) -> (r: bool)
        ensures
            r == self.context_menu.active_spec(),
    {
        match self.context_menu {
            ContextMenu::Inactive => false,
            _ => true,
        }
    }

    /// Marks the frame's event as claimed; at most one probe may claim it.
    fn consume_event(&mut self)
        requires
            !old(self).event_consumed,
        ensures
            *final(self) == (UserInput { event_consumed: true, ..*old(self) }),
    {
        self.event_consumed = true;
    }

    /// Whether the event was already claimed this frame.
    pub fn has_been_consumed(&self) -> (r: bool)
        ensures
            r == self.event_consumed,
    {
        self.event_consumed
    }

    /// Records that a probe watches this key for this action.
    fn reserve_key(&mut self, key: Key, action: &str)
        ensures
            final(self).reserved_keys@.len() == old(self).reserved_keys@.len() + 1,
            final(self).reserved_keys@.last().0 == key,
            final(self).reserved_keys@.last().1@ == action@,
            final(self).reserved_keys@.take(old(self).reserved_keys@.len() as int) == old(
                self,
            ).reserved_keys@,
            final(self).event == old(self).event,
            final(self).event_consumed == old(self).event_consumed,
            final(self).important_actions == old(self).important_actions,
            final(self).context_menu == old(self).context_menu,
            final(self).top_menu == old(self).top_menu,
            final(self).chosen_action == old(self).chosen_action,
    {
        let ghost before = self.reserved_keys@;
        self.reserved_keys.push((key, action.to_owned()));
        proof {
            assert(self.reserved_keys@.take(before.len() as int) =~= before);
        }
    }

    /// Probes for a key press worth showing on the on-screen display: the
    /// probe is recorded, and the press is claimed when this frame's event
    /// is exactly that unclaimed press and no context menu is up.
    pub fn key_pressed(&mut self, key: Key, action: &str) -> (r: bool)
        ensures
            final(self).event == old(self).event,
            final(self).context_menu == old(self).context_menu,
            final(self).top_menu == old(self).top_menu,
            final(self).chosen_action == old(self).chosen_action,
            old(self).context_menu.active_spec() ==> (*final(self) == *old(self) && r == false),
            !old(self).context_menu.active_spec() ==> {
                &&& final(self).reserved_keys@.len() == old(self).reserved_keys@.len() + 1
                &&& final(self).reserved_keys@.last().0 == key
                &&& final(self).reserved_keys@.last().1@ == action@
                &&& final(self).important_actions@.len() == old(self).important_actions@.len() + 1
                &&& final(self).important_actions@.last().0 == key
                &&& final(self).important_actions@.last().1@ == action@
                &&& r == (!old(self).event_consumed && old(self).event == Event::KeyPress(key))
                &&& final(self).event_consumed == (old(self).event_consumed || r)
            },
    {
        if self.context_menu_active() {
            return false;
        }
        self.reserve_key(key, action);
        self.important_actions.push((key, action.to_owned()));
        if self.event_consumed {
            return false;
        }
        if self.event == Event::KeyPress(key) {
            self.consume_event();
            return true;
        }
        false
    }

    /// Probes for a key press without recording it for the on-screen
    /// display.
    pub fn unimportant_key_pressed(&mut self, key: Key, action: &str) -> (r: bool)
        ensures
            final(self).event == old(self).event,
            final(self).important_actions == old(self).important_actions,
            final(self).context_menu == old(self).context_menu,
            final(self).top_menu == old(self).top_menu,
            final(self).chosen_action == old(self).chosen_action,
            old(self).context_menu.active_spec() ==> (*final(self) == *old(self) && r == false),
            !old(self).context_menu.active_spec() ==> {
                &&& final(self).reserved_keys@.len() == old(self).reserved_keys@.len() + 1
                &&& final(self).reserved_keys@.last().0 == key
                &&& final(self).reserved_keys@.last().1@ == action@
                &&& r == (!old(self).event_consumed && old(self).event == Event::KeyPress(key))
                &&& final(self).event_consumed == (old(self).event_consumed || r)
            },
    {
        if self.context_menu_active() {
            return false;
        }
        self.reserve_key(key, action);
        if self.event_consumed {
            return false;
        }
        if self.event == Event::KeyPress(key) {
            self.consume_event();
            return true;
        }
        false
    }

    /// Probes for a key release; claims it when it is this frame's unclaimed
    /// event and no context menu is up.
    pub fn key_released(&mut self, key: Key) -> (r: bool)
        ensures
            r == (!old(self).context_menu.active_spec() && !old(self).event_consumed && old(
                self,
            ).event == Event::KeyRelease(key)),
            *final(self) == (UserInput { event_consumed: old(self).event_consumed || r, ..*old(self) }),
    {
        if self.context_menu_active() {
            return false;
        }
        if self.event_consumed {
            return false;
        }
        if self.event == Event::KeyRelease(key) {
            self.consume_event();
            return true;
        }
        false
    }

    /// Offers an action on the context menu, or probes the menu for it.
    /// While the menu is collecting, the action is added under its hotkey;
    /// while it is displayed or clicked, the hotkey claims it; with no menu
    /// up, the plain hotkey press still works.
    pub fn contextual_action(&mut self, hotkey: Key, action: &str) -> (r: bool)
        requires
            (old(self).context_menu matches ContextMenu::Building(_, acts) ==> (forall|i: int|
                0 <= i < acts@.len() && (#[trigger] acts@[i]).0 == hotkey ==> acts@[i].1@
                    == action@)),
        ensures
            final(self).event == old(self).event,
            final(self).important_actions == old(self).important_actions,
            final(self).top_menu == old(self).top_menu,
            final(self).chosen_action == old(self).chosen_action,
            match old(self).context_menu {
                ContextMenu::Inactive => {
                    &&& final(self).context_menu == old(self).context_menu
                    &&& final(self).reserved_keys@.len() == old(self).reserved_keys@.len() + 1
                    &&& final(self).reserved_keys@.last().0 == hotkey
                    &&& final(self).reserved_keys@.last().1@ == action@
                    &&& r == (!old(self).event_consumed && old(self).event == Event::KeyPress(
                        hotkey,
                    ))
                    &&& final(self).event_consumed == (old(self).event_consumed || r)
                },
                ContextMenu::Building(origin, acts) => {
                    &&& r == false
                    &&& final(self).event_consumed == old(self).event_consumed
                    &&& final(self).reserved_keys == old(self).reserved_keys
                    &&& (if has_key(acts@, hotkey) {
                        final(self).context_menu == old(self).context_menu
                    } else {
                        final(self).context_menu matches ContextMenu::Building(o2, acts2) && o2
                            == origin && acts2@.len() == acts@.len() + 1 && acts2@.take(
                            acts@.len() as int,
                        ) == acts@ && acts2@.last().0 == hotkey && acts2@.last().1@ == action@
                    })
                },
                ContextMenu::Displaying(menu) => {
                    &&& final(self).event_consumed == old(self).event_consumed
                    &&& final(self).reserved_keys == old(self).reserved_keys
                    &&& r == (old(self).event == Event::KeyPress(hotkey))
                    &&& final(self).context_menu == (if r {
                        ContextMenu::Inactive
                    } else {
                        old(self).context_menu
                    })
                },
                ContextMenu::Clicked(key) => {
                    &&& final(self).event_consumed == old(self).event_consumed
                    &&& final(self).reserved_keys == old(self).reserved_keys
                    &&& r == (key == hotkey)
                    &&& final(self).context_menu == (if r {
                        ContextMenu::Inactive
                    } else {
                        old(self).context_menu
                    })
                },
            },
    {
        match &mut self.context_menu {
            ContextMenu::Inactive => {
                return self.unimportant_key_pressed(hotkey, action);
            },
            ContextMenu::Building(_, actions) => {
                let ghost acts_before = actions@;
                let mut found = false;
                let mut i: usize = 0;
                while i < actions.len()
                    invariant
                        0 <= i <= actions@.len(),
                        found <==> exists|j: int|
                            0 <= j < i && (#[trigger] actions@[j]).0 == hotkey,
                    decreases actions@.len() - i,
                {
                    if actions[i].0 == hotkey {
                        found = true;
                        proof {
                            assert((#[trigger] actions@[i as int]).0 == hotkey);
                        }
                    }
                    i += 1;
                }
                if !found {
                    actions.push((hotkey, action.to_owned()));
                    proof {
                        assert(actions@.take(acts_before.len() as int) =~= acts_before);
                        assert(!has_key(acts_before, hotkey)) by {
                            if has_key(acts_before, hotkey) {
                                let j = choose|j: int|
                                    0 <= j < acts_before.len() && (#[trigger] acts_before[j]).0
                                        == hotkey;
                                assert(acts_before[j] == actions@[j]);
                            }
                        }
                    }
                } else {
                    proof {
                        let j = choose|j: int|
                            0 <= j < actions@.len() && (#[trigger] actions@[j]).0 == hotkey;
                        assert(has_key(acts_before, hotkey));
                    }
                }
            },
            ContextMenu::Displaying(_) => {
                if self.event == Event::KeyPress(hotkey) {
                    self.context_menu = ContextMenu::Inactive;
                    return true;
                }
            },
            ContextMenu::Clicked(key) => {
                if *key == hotkey {
                    self.context_menu = ContextMenu::Inactive;
                    return true;
                }
            },
        }
        false
    }

    /// Probes whether the top menu's action was chosen this frame, either by
    /// the menu itself or by the action's hotkey; in the latter case the
    /// action is recorded as offered this frame.
    pub fn action_chosen(&mut self, action: &str) -> (r: bool)
        requires
            (old(self).chosen_action matches Some(a) && a@ == action@) || (old(
                self,
            ).top_menu matches Some(menu) && (find_action(menu.actions@, action@) is Some)),
        ensures
            final(self).event == old(self).event,
            final(self).important_actions == old(self).important_actions,
            final(self).context_menu == old(self).context_menu,
            if old(self).chosen_action matches Some(a) && a@ == action@ {
                &&& r
                &&& final(self).chosen_action is None
                &&& final(self).top_menu == old(self).top_menu
                &&& final(self).event_consumed == old(self).event_consumed
                &&& final(self).reserved_keys == old(self).reserved_keys
            } else {
                &&& final(self).chosen_action == old(self).chosen_action
                &&& (match old(self).top_menu {
                    Some(menu) => {
                        &&& final(self).top_menu matches Some(m2) && m2.actions == menu.actions
                            && m2.valid_actions@.len() == menu.valid_actions@.len() + 1
                            && m2.valid_actions@.take(menu.valid_actions@.len() as int)
                            == menu.valid_actions@ && m2.valid_actions@.last()@ == action@
                        &&& (match find_action(menu.actions@, action@) {
                            Some(Some(key)) => {
                                &&& r == (!old(self).context_menu.active_spec() && !old(
                                    self,
                                ).event_consumed && old(self).event == Event::KeyPress(key))
                                &&& final(self).event_consumed == (old(self).event_consumed || r)
                                &&& (if old(self).context_menu.active_spec() {
                                    final(self).reserved_keys == old(self).reserved_keys
                                } else {
                                    &&& final(self).reserved_keys@.len() == old(
                                        self,
                                    ).reserved_keys@.len() + 1
                                    &&& final(self).reserved_keys@.last().0 == key
                                    &&& final(self).reserved_keys@.last().1@ == action@
                                })
                            },
                            Some(None) => {
                                &&& r == false
                                &&& final(self).event_consumed == old(self).event_consumed
                                &&& final(self).reserved_keys == old(self).reserved_keys
                            },
                            None => false,
                        })
                    },
                    None => false,
                })
            },
    {
        let owned = action.to_owned();
        let is_chosen = match &self.chosen_action {
            Some(a) => *a == owned,
            None => false,
        };
        if is_chosen {
            self.chosen_action = None;
            return true;
        }
        let maybe_key: Option<Key> = match &mut self.top_menu {
            Some(menu) => {
                let ghost acts = menu.actions@;
                proof {
                    assert(acts.skip(0) =~= acts);
                }
                let mut i: usize = 0;
                let mut matched = false;
                let mut hot: Option<Key> = None;
                while i < menu.actions.len()
                    invariant
                        0 <= i <= acts.len(),
                        menu.actions@ == acts,
                        owned@ == action@,
                        !matched ==> find_action(acts, action@) == find_action(
                            acts.skip(i as int),
                            action@,
                        ),
                        !matched ==> (hot is None),
                        matched ==> find_action(acts, action@) == Some(hot),
                    decreases acts.len() - i,
                {
                    if !matched {
                        proof {
                            assert(acts.skip(i as int)[0] == acts[i as int]);
                            assert(acts.skip(i as int).drop_first() =~= acts.skip(i + 1));
                        }
                        if menu.actions[i].0 == owned {
                            matched = true;
                            hot = match &menu.actions[i].1 {
                                Some(k) => Some(*k),
                                None => None,
                            };
                            proof {
                                assert(find_action(acts.skip(i as int), action@) == Some(
                                    acts[i as int].1,
                                ));
                            }
                        }
                    }
                    i += 1;
                }
                if matched {
                    menu.valid_actions.push(owned);
                    proof {
                        assert(menu.valid_actions@.take(menu.valid_actions@.len() - 1)
                            =~= menu.valid_actions@.drop_last());
                    }
                    hot
                } else {
                    proof {
                        assert(acts.skip(acts.len() as int) =~= Seq::<(String, Option<Key>)>::empty());
                    }
                    None
                }
            },
            None => None,
        };
        match maybe_key {
            Some(key) => self.unimportant_key_pressed(key, action),
            None => false,
        }
    }

    /// The cursor's new position, when this frame's event is a mouse move
    /// and no context menu is up.
    pub fn get_moved_mouse(&self) -> (r: Option<ScreenPt>)
        ensures
            r == if !self.context_menu.active_spec() && (self.event matches Event::MouseMovedTo(
                _,
            )) {
                Some(self.event->MouseMovedTo_0)
            } else {
                None::<ScreenPt>
            },
    {
        if self.context_menu_active() {
            return None;
        }
        if let Event::MouseMovedTo(pt) = self.event {
            return Some(pt);
        }
        None
    }

    /// The scroll wheel's movement, when this frame's event is a scroll and
    /// no context menu is up.
    fn get_mouse_scroll(&self) -> (r: Option<i64>)
        ensures
            r == if !self.context_menu.active_spec() && (self.event matches Event::MouseWheelScroll(
                _,
            )) {
                Some(self.event->MouseWheelScroll_0)
            } else {
                None::<i64>
            },
    {
        if self.context_menu_active() {
            return None;
        }
        if let Event::MouseWheelScroll(dy) = self.event {
            return Some(dy);
        }
        None
    }

    pub(crate) fn left_mouse_button_pressed(&mut self) -> (r: bool)
        ensures
            *final(self) == *old(self),
            r == (!old(self).context_menu.active_spec() && old(self).event
                == Event::LeftMouseButtonDown),
    {
        if self.context_menu_active() {
            return false;
        }
        self.event == Event::LeftMouseButtonDown
    }

    pub(crate) fn left_mouse_button_released(&mut self) -> (r: bool)
        ensures
            *final(self) == *old(self),
            r == (!old(self).context_menu.active_spec() && old(self).event
                == Event::LeftMouseButtonUp),
    {
        if self.context_menu_active() {
            return false;
        }
        self.event == Event::LeftMouseButtonUp
    }

    pub(crate) fn right_mouse_button_pressed(&mut self) -> (r: bool)
        ensures
            *final(self) == *old(self),
            r == (!old(self).context_menu.active_spec() && old(self).event
                == Event::RightMouseButtonDown),
    {
        if self.context_menu_active() {
            return false;
        }
        self.event == Event::RightMouseButtonDown
    }

    pub(crate) fn window_gained_cursor(&mut self) -> (r: bool)
        ensures
            *final(self) == *old(self),
            r == (old(self).event == Event::WindowGainedCursor),
    {
        self.event == Event::WindowGainedCursor
    }

    pub fn window_lost_cursor(&mut self) -> (r: bool)
        ensures
            *final(self) == *old(self),
            r == (old(self).event == Event::WindowLostCursor),
    {
        self.event == Event::WindowLostCursor
    }

    /// Whether an update tick is pending, without claiming it.
    pub fn nonblocking_is_update_event(&mut self) -> (r: bool)
        ensures
            *final(self) == *old(self),
            r == (!old(self).context_menu.active_spec() && !old(self).event_consumed && old(
                self,
            ).event == Event::Update),
    {
        if self.context_menu_active() {
            return false;
        }
        if self.event_consumed {
            return false;
        }
        self.event == Event::Update
    }

    /// Claims the pending update tick.
    pub fn use_update_event(&mut self)
        requires
            !old(self).event_consumed,
            old(self).event == Event::Update,
        ensures
            *final(self) == (UserInput { event_consumed: true, ..*old(self) }),
    {
        self.consume_event();
    }

    /// Hands the raw event to one caller, claiming it.
    pub(crate) fn use_event_directly(&mut self) -> (r: Option<Event>)
        ensures
            r == if old(self).event_consumed {
                None::<Event>
            } else {
                Some(old(self).event)
            },
            *final(self) == (UserInput { event_consumed: true, ..*old(self) }),
    {
        if self.event_consumed {
            return None;
        }
        self.consume_event();
        Some(self.event)
    }

    /// Moves the recorded probes into the frame's on-screen display.
    pub fn populate_osd(&mut self, osd: &mut Text)
        ensures
            final(osd).lines@ == old(osd).lines@ + old(self).important_actions@,
            final(self).important_actions@ == Seq::<(Key, String)>::empty(),
            *final(self) == (UserInput {
                important_actions: final(self).important_actions,
                ..*old(self)
            }),
    {
        osd.lines.append(&mut self.important_actions);
        proof {
            assert(self.important_actions@ =~= Seq::<(Key, String)>::empty());
        }
    }
}

/// What a fresh frame input looks like once neither menu claimed the event:
/// a right click starts collecting a context menu; a displayed menu eats the
/// event; otherwise the event is left for the frame's probes.
pub open spec fn new_after_menus(
    r: UserInput,
    event: Event,
    context_menu: ContextMenu,
    canvas: Canvas,
) -> bool {
    if !context_menu.active_spec() && event == Event::RightMouseButtonDown {
        &&& r.event_consumed
        &&& r.context_menu matches ContextMenu::Building(origin, actions) && origin == canvas.cursor
            && actions@.len() == 0
    } else {
        match context_menu {
            ContextMenu::Displaying(menu) => {
                &&& r.event_consumed
                &&& if event == Event::KeyPress(Key::Escape) {
                    r.context_menu is Inactive
                } else if event matches Event::KeyPress(k) && has_key(menu.choices@, k) {
                    r.context_menu == ContextMenu::Clicked(event->KeyPress_0)
                } else {
                    r.context_menu == ContextMenu::Displaying(menu)
                }
            },
            _ => !r.event_consumed && r.context_menu == context_menu,
        }
    }
}

} // verus!
