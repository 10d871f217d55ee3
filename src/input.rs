//! Per-frame state of keys and mouse buttons, fed by input events.
use vstd::prelude::*;

verus! {

/// What happened to a key or a mouse button in the current frame.
#[derive(Debug, Clone, Copy, PartialEq, Eq, Structural)]
pub enum ButtonState {
    /// Went down in this frame.
    Pressed,
    /// Went up in this frame.
    Released,
    /// Went down in an earlier frame and is still down.
    Held,
    /// Up, and not released in this frame.
    Idle,
}

impl ButtonState {
    /// The state a button carries into the next frame when no new event arrives:
    /// a press becomes a hold and a release fades to nothing.
    pub fn next_frame(self) -> (r: ButtonState)
        ensures
            r == after_frame(self),
    {
        match self {
            ButtonState::Pressed => ButtonState::Held,
            ButtonState::Released => ButtonState::Idle,
            other => other,
        }
    }
}

/// The key code of the Escape key, which ends the game.
pub const ESCAPE_KEY: i32 = 27;

/// The state of a button after one more frame without events.
pub open spec fn after_frame(s: ButtonState) -> ButtonState {
    match s {
        ButtonState::Pressed => ButtonState::Held,
        ButtonState::Released => ButtonState::Idle,
        other => other,
    }
}

/// The state of each button that has seen an event, keyed by button code.
pub struct ButtonStates {
    /// The codes of the buttons; distinct.
    codes: Vec<i32>,
    /// The state of each button in `codes`, at the same position.
    states: Vec<ButtonState>,
}

impl View for ButtonStates {
    type V = Map<i32, ButtonState>;

    closed spec fn view(&self) -> Map<i32, ButtonState> {
        Map::new(|c: i32| self.codes@.contains(c), |c: i32| self.states@[self.codes@.index_of(c)])
    }
}

impl ButtonStates {
    /// The table's invariant.
    pub closed spec fn wf(&self) -> bool {
        &&& self.codes@.len() == self.states@.len()
        &&& self.codes@.no_duplicates()
    }

    /// The state of button `code`: `Idle` for a button without events.
    pub open spec fn state_of(&self, code: i32) -> ButtonState {
        if self@.contains_key(code) {
            self@[code]
        } else {
            ButtonState::Idle
        }
    }

    proof fn lemma_view_at(&self, p: int)
        requires
            self.wf(),
            0 <= p < self.codes@.len(),
        ensures
            self@.contains_key(self.codes@[p]),
            self@[self.codes@[p]] == self.states@[p],
    {
        let c = self.codes@[p];
        assert(self.codes@.contains(c));
        let q = self.codes@.index_of(c);
        assert(self.codes@[q] == c);
    }

    /// Position of `code` in the table, if it is there.
    fn find(&self, code: i32) -> (r: Option<usize>)
        requires
            self.wf(),
        ensures
            match r {
                Some(i) => i < self.codes@.len() && self.codes@[i as int] == code,
                None => !self@.contains_key(code),
            },
    {
        let mut i: usize = 0;
        while i < self.codes.len()
            invariant
                i <= self.codes@.len(),
                forall|j: int| 0 <= j < i ==> self.codes@[j] != code,
            decreases self.codes@.len() - i,
        {
            if self.codes[i] == code {
                return Some(i);
            }
            i += 1;
        }
        None
    }

    /// A table in which no button has seen an event.
    pub fn new() -> (r: Self)
        ensures
            r.wf(),
            r@ == Map::<i32, ButtonState>::empty(),
    {
        let r = ButtonStates { codes: Vec::new(), states: Vec::new() };
        proof {
            assert(r@ =~= Map::<i32, ButtonState>::empty());
        }
        r
    }

    /// Records that button `code` is now in `state`.
    pub fn set(&mut self, code: i32, state: ButtonState)
        requires
            old(self).wf(),
        ensures
            final(self).wf(),
            final(self)@ == old(self)@.insert(code, state),
    {
        let ghost prev = *self;
        match self.find(code) {
            Some(i) => {
                self.states.set(i, state);
                proof {
                    prev.lemma_view_at(i as int);
                    self.lemma_view_at(i as int);
                    assert forall|c: i32| #[trigger] self@.contains_key(c) implies self@[c] == prev@.insert(code, state)[c] by {
                        let p = self.codes@.index_of(c);
                        self.lemma_view_at(p);
                        prev.lemma_view_at(p);
                    }
                    assert(self@ =~= prev@.insert(code, state));
                }
            },
            None => {
                self.codes.push(code);
                self.states.push(state);
                proof {
                    let n = prev.codes@.len() as int;
                    self.lemma_view_at(n);
                    assert forall|c: i32| #[trigger] self@.contains_key(c) implies self@[c] == prev@.insert(code, state)[c] by {
                        let p = self.codes@.index_of(c);
                        self.lemma_view_at(p);
                        if p < n {
                            assert(prev.codes@[p] == c);
                            prev.lemma_view_at(p);
                        }
                    }
                    assert forall|c: i32| prev@.insert(code, state).contains_key(c) implies #[trigger] self@.contains_key(c) by {
                        if c != code {
                            let p = prev.codes@.index_of(c);
                            assert(self.codes@[p] == c);
                        }
                    }
                    assert(self@ =~= prev@.insert(code, state));
                }
            },
        }
    }

    /// The state of button `code`: `Idle` for a button without events.
    pub fn state(&self, code: i32) -> (r: ButtonState)
        requires
            self.wf(),
        ensures
            r == self.state_of(code),
    {
        match self.find(code) {
            Some(i) => {
                proof {
                    self.lemma_view_at(i as int);
                }
                self.states[i]
            },
            None => ButtonState::Idle,
        }
    }

    /// Moves every button one frame on: presses become holds and releases fade.
    pub fn advance_frame(&mut self)
        requires
            old(self).wf(),
        ensures
            final(self).wf(),
            final(self)@.dom() == old(self)@.dom(),
            forall|c: i32| #[trigger] final(self)@.contains_key(c) ==> final(self)@[c] == after_frame(old(self)@[c]),
    {
        let ghost prev = *self;
        let mut i: usize = 0;
        while i < self.states.len()
            invariant
                prev.wf(),
                self.codes == prev.codes,
                self.states@.len() == prev.states@.len(),
                i <= self.states@.len(),
                forall|j: int| 0 <= j < i ==> #[trigger] self.states@[j] == after_frame(prev.states@[j]),
                forall|j: int| i <= j < self.states@.len() ==> #[trigger] self.states@[j] == prev.states@[j],
            decreases self.states@.len() - i,
        {
            let s = self.states[i];
            self.states.set(i, s.next_frame());
            i += 1;
        }
        proof {
            assert(self@.dom() =~= prev@.dom());
            assert forall|c: i32| #[trigger] self@.contains_key(c) implies self@[c] == after_frame(prev@[c]) by {
                let p = self.codes@.index_of(c);
                self.lemma_view_at(p);
                prev.lemma_view_at(p);
            }
        }
    }
}

/// An input event, with buttons and keys given by their codes.
#[derive(Debug, Clone, Copy, PartialEq, Eq, Structural)]
pub enum InputEvent {
    /// The window was closed.
    Quit,
    /// A mouse button went down.
    MouseButtonDown(i32),
    /// A mouse button went up.
    MouseButtonUp(i32),
    /// A key went down; `repeat` marks the key-repeat events of a held key.
    KeyDown { keycode: Option<i32>, repeat: bool },
    /// A key went up.
    KeyUp { keycode: Option<i32> },
    /// Any other event.
    Other,
}

/// Keyboard and mouse state, updated once per frame and by each event.
pub struct Input {
    mouse_button_state: ButtonStates,
    key_state: ButtonStates,
}

impl Input {
    /// The state of each mouse button.
    pub closed spec fn mouse_buttons(&self) -> ButtonStates {
        self.mouse_button_state
    }

    /// The state of each key.
    pub closed spec fn keys(&self) -> ButtonStates {
        self.key_state
    }

    /// The input's invariant.
    pub open spec fn wf(&self) -> bool {
        self.mouse_buttons().wf() && self.keys().wf()
    }

    /// No key or button has seen an event.
    pub fn new() -> (r: Self)
        ensures
            r.wf(),
            r.mouse_buttons()@ == Map::<i32, ButtonState>::empty(),
            r.keys()@ == Map::<i32, ButtonState>::empty(),
    {
        Input { mouse_button_state: ButtonStates::new(), key_state: ButtonStates::new() }
    }

    /// Starts a new frame: every press becomes a hold and every release fades.
    pub fn update(&mut self)
        requires
            old(self).wf(),
        ensures
            final(self).wf(),
            final(self).mouse_buttons()@.dom() == old(self).mouse_buttons()@.dom(),
            forall|c: i32| #[trigger] final(self).mouse_buttons()@.contains_key(c) ==> final(self).mouse_buttons()@[c]
                == after_frame(old(self).mouse_buttons()@[c]),
            final(self).keys()@.dom() == old(self).keys()@.dom(),
            forall|c: i32| #[trigger] final(self).keys()@.contains_key(c) ==> final(self).keys()@[c] == after_frame(
                old(self).keys()@[c],
            ),
    {
        self.mouse_button_state.advance_frame();
        self.key_state.advance_frame();
    }

    /// Applies one event and tells whether it asks to quit: closing the window
    /// or pressing Escape. A press marks the button `Pressed` and a release
    /// `Released`; key-repeat events and keys without a code change nothing.
    pub fn process_event(&mut self, event: InputEvent) -> (quit: bool)
        requires
            old(self).wf(),
        ensures
            final(self).wf(),
            quit == (event == InputEvent::Quit || event == (InputEvent::KeyDown { keycode: Some(ESCAPE_KEY), repeat: false })
                || event == (InputEvent::KeyDown { keycode: Some(ESCAPE_KEY), repeat: true })),
            final(self).mouse_buttons()@ == match event {
                InputEvent::MouseButtonDown(b) => old(self).mouse_buttons()@.insert(b, ButtonState::Pressed),
                InputEvent::MouseButtonUp(b) => old(self).mouse_buttons()@.insert(b, ButtonState::Released),
                _ => old(self).mouse_buttons()@,
            },
            final(self).keys()@ == match event {
                InputEvent::KeyDown { keycode: Some(k), repeat: false } => if k == ESCAPE_KEY {
                    old(self).keys()@
                } else {
                    old(self).keys()@.insert(k, ButtonState::Pressed)
                },
                InputEvent::KeyUp { keycode: Some(k) } => old(self).keys()@.insert(k, ButtonState::Released),
                _ => old(self).keys()@,
            },
    {
        match event {
            InputEvent::Quit => true,
            InputEvent::KeyDown { keycode: Some(k), repeat } => {
                if k == ESCAPE_KEY {
                    true
                } else {
                    if !repeat {
                        self.key_state.set(k, ButtonState::Pressed);
                    }
                    false
                }
            },
            InputEvent::MouseButtonDown(b) => {
                self.mouse_button_state.set(b, ButtonState::Pressed);
                false
            },
            InputEvent::MouseButtonUp(b) => {
                self.mouse_button_state.set(b, ButtonState::Released);
                false
            },
            InputEvent::KeyUp { keycode: Some(k) } => {
                self.key_state.set(k, ButtonState::Released);
                false
            },
            _ => false,
        }
    }

    /// Whether mouse button `button` went down in this frame.
    pub fn is_mouse_button_pressed(&self, button: i32) -> (r: bool)
        requires
            self.wf(),
        ensures
            r == (self.mouse_buttons().state_of(button) == ButtonState::Pressed),
    {
        self.mouse_button_state.state(button) == ButtonState::Pressed
    }

    /// Whether mouse button `button` is held down from an earlier frame.
    pub fn is_mouse_button_held(&self, button: i32) -> (r: bool)
        requires
            self.wf(),
        ensures
            r == (self.mouse_buttons().state_of(button) == ButtonState::Held),
    {
        self.mouse_button_state.state(button) == ButtonState::Held
    }

    /// Whether mouse button `button` went up in this frame.
    pub fn is_mouse_button_released(&self, button: i32) -> (r: bool)
        requires
            self.wf(),
        ensures
            r == (self.mouse_buttons().state_of(button) == ButtonState::Released),
    {
        self.mouse_button_state.state(button) == ButtonState::Released
    }

    /// Whether key `keycode` went down in this frame.
    pub fn is_key_pressed(&self, keycode: i32) -> (r: bool)
        requires
            self.wf(),
        ensures
            r == (self.keys().state_of(keycode) == ButtonState::Pressed),
    {
        self.key_state.state(keycode) == ButtonState::Pressed
    }

    /// Whether key `keycode` is held down from an earlier frame.
    pub fn is_key_held(&self, keycode: i32) -> (r: bool)
        requires
            self.wf(),
        ensures
            r == (self.keys().state_of(keycode) == ButtonState::Held),
    {
        self.key_state.state(keycode) == ButtonState::Held
    }

    /// Whether key `keycode` went up in this frame.
    pub fn is_key_released(&self, keycode: i32) -> (r: bool)
        requires
            self.wf(),
        ensures
            r == (self.keys().state_of(keycode) == ButtonState::Released),
    {
        self.key_state.state(keycode) == ButtonState::Released
    }
}

} // verus!
