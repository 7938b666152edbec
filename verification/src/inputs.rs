//! The life of a key between two collections of input.
use vstd::prelude::*;

verus! {

/// State of a key, and the kind of a binding.
#[derive(Clone, Copy, Debug, PartialEq, Eq, Structural)]
pub enum InputState {
    /// The key went down since the last collection.
    Pressed,
    /// The key is down and was seen down by a collection.
    Held,
    /// The key went up after a collection had seen it down.
    Released,
    /// The key went down and up again since the last collection.
    PressedReleased,
}

/// What one collection does with a key.
#[derive(Clone, Copy, Debug, PartialEq, Eq, Structural)]
pub struct Collected {
    /// The binding that fires for the key going or being down, if any.
    pub down: Option<InputState>,
    /// Whether the binding for the key's release fires, after `down`.
    pub released: bool,
    /// The key's state afterwards; `None` where the key is forgotten.
    pub next: Option<InputState>,
}

impl InputState {
    /// The state of the key once it goes up: a key that no collection has
    /// seen down yet remembers that it was pressed.
    pub open spec fn released_from(self) -> InputState {
        match self {
            InputState::Pressed => InputState::PressedReleased,
            InputState::Held => InputState::Released,
            InputState::Released => InputState::Released,
            InputState::PressedReleased => InputState::PressedReleased,
        }
    }

    /// The binding that fires for the key going down: the one for a press
    /// where there is one, else the one for a held key, if any.
    pub open spec fn press_binding(pressed_bound: bool, held_bound: bool) -> Option<InputState> {
        if pressed_bound {
            Some(InputState::Pressed)
        } else if held_bound {
            Some(InputState::Held)
        } else {
            None
        }
    }

    /// What a collection does with a key in this state, given which kinds
    /// of binding the key has.
    pub open spec fn collected(
        self,
        pressed_bound: bool,
        held_bound: bool,
        released_bound: bool,
    ) -> Collected {
        match self {
            InputState::Held => Collected {
                down: if held_bound {
                    Some(InputState::Held)
                } else {
                    None
                },
                released: false,
                next: Some(InputState::Held),
            },
            InputState::Released => Collected { down: None, released: released_bound, next: None },
            InputState::Pressed => Collected {
                down: InputState::press_binding(pressed_bound, held_bound),
                released: false,
                next: Some(InputState::Held),
            },
            InputState::PressedReleased => Collected {
                down: InputState::press_binding(pressed_bound, held_bound),
                released: released_bound,
                next: None,
            },
        }
    }

    /// The state of a key that goes down and was not down before.
    pub fn press() -> (state: InputState)
        ensures
            state == InputState::Pressed,
    {
        InputState::Pressed
    }

    /// The state of the key once it goes up.
    pub fn release(self) -> (state: InputState)
        ensures
            state == self.released_from(),
    {
        match self {
            InputState::Pressed => InputState::PressedReleased,
            InputState::Held => InputState::Released,
            InputState::Released => InputState::Released,
            InputState::PressedReleased => InputState::PressedReleased,
        }
    }

    /// What a collection does with a key in this state: which bindings
    /// fire, and what becomes of the key.
    pub fn collect(self, pressed_bound: bool, held_bound: bool, released_bound: bool) -> (outcome:
        Collected)
        ensures
            outcome == self.collected(pressed_bound, held_bound, released_bound),
    {
        let press = if pressed_bound {
            Some(InputState::Pressed)
        } else if held_bound {
            Some(InputState::Held)
        } else {
            None
        };
        match self {
            InputState::Held => Collected {
                down: if held_bound {
                    Some(InputState::Held)
                } else {
                    None
                },
                released: false,
                next: Some(InputState::Held),
            },
            InputState::Released => Collected { down: None, released: released_bound, next: None },
            InputState::Pressed => Collected {
                down: press,
                released: false,
                next: Some(InputState::Held),
            },
            InputState::PressedReleased => Collected {
                down: press,
                released: released_bound,
                next: None,
            },
        }
    }
}

/// A key that was pressed is seen down by exactly one collection before it
/// is forgotten or held: after a press, and after a press and a release,
/// the first collection fires the press binding, and no later collection
/// fires it again.
pub proof fn lemma_press_fires_once(pressed_bound: bool, held_bound: bool, released_bound: bool)
    ensures
        InputState::Pressed.collected(pressed_bound, held_bound, released_bound).next == Some(
            InputState::Held,
        ),
        InputState::Held.collected(pressed_bound, held_bound, released_bound).down != Some(
            InputState::Pressed,
        ),
        InputState::Pressed.released_from().collected(
            pressed_bound,
            held_bound,
            released_bound,
        ).next.is_none(),
        InputState::Pressed.released_from().collected(pressed_bound, held_bound, released_bound).down
            == InputState::Pressed.collected(pressed_bound, held_bound, released_bound).down,
{
}

} // verus!
