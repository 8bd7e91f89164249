//! Terminal input turned into actions.
use crate::action::Action;
use vstd::prelude::*;

verus! {

/// What the main loop reacts to: a user action, or the timer.
#[derive(Debug, Clone, Copy, PartialEq, Eq, Structural)]
pub enum Event {
    Action(Action),
    Tick,
}

/// A pressed key.
#[derive(Debug, Clone, Copy, PartialEq, Eq, Structural)]
pub enum Key {
    Up,
    Down,
    Left,
    Right,
    Enter,
    Backspace,
    Tab,
    BackTab,
    Esc,
    Char(char),
    Other,
}

/// A key press: the key, and whether no modifier key was held.
#[derive(Debug, Clone, Copy, PartialEq, Eq, Structural)]
pub struct KeyPress {
    pub key: Key,
    pub no_modifiers: bool,
}

/// The action bound to a key press. Arrows, Enter, Backspace, Esc, Tab (without
/// modifiers) and Shift+Tab have their own actions, Space toggles the selection, and
/// every other character is passed on as typed input, which the screen interprets
/// (`q` quits, `h` opens help, `c` the connection dialog, ...). Anything else is a tick.
pub open spec fn action_for_key(k: KeyPress) -> Action {
    match k.key {
        Key::Up => Action::MoveUp,
        Key::Down => Action::MoveDown,
        Key::Left => Action::MoveLeft,
        Key::Right => Action::MoveRight,
        Key::Enter => Action::Enter,
        Key::Backspace => Action::BackspaceKey,
        Key::Tab => if k.no_modifiers {
            Action::NextTab
        } else {
            Action::Tick
        },
        Key::BackTab => Action::PreviousTab,
        Key::Esc => Action::CancelDialog,
        Key::Char(c) => if c == ' ' {
            Action::ToggleSelectCurrent
        } else {
            Action::InputChar(c)
        },
        Key::Other => Action::Tick,
    }
}

/// The action for a key press.
pub fn map_key_to_action(key: KeyPress) -> (r: Action)
    ensures
        r == action_for_key(key),
{
    match key.key {
        Key::Up => Action::MoveUp,
        Key::Down => Action::MoveDown,
        Key::Left => Action::MoveLeft,
        Key::Right => Action::MoveRight,
        Key::Enter => Action::Enter,
        Key::Backspace => Action::BackspaceKey,
        Key::Tab => if key.no_modifiers {
            Action::NextTab
        } else {
            Action::Tick
        },
        Key::BackTab => Action::PreviousTab,
        Key::Esc => Action::CancelDialog,
        Key::Char(c) => if c == ' ' {
            Action::ToggleSelectCurrent
        } else {
            Action::InputChar(c)
        },
        Key::Other => Action::Tick,
    }
}

/// The event for what the terminal delivered before the timer ran out: a key press
/// becomes its action; nothing, or any other input, is a tick.
pub fn event_from_input(input: Option<KeyPress>) -> (r: Event)
    ensures
        r == match input {
            Some(k) => Event::Action(action_for_key(k)),
            None => Event::Tick,
        },
{
    match input {
        Some(k) => Event::Action(map_key_to_action(k)),
        None => Event::Tick,
    }
}

/// Every key has the action its name promises, whatever modifier is held: the arrows
/// move in their own direction (Up and Down differently), Enter opens, Backspace goes
/// up, Esc closes, Shift+Tab goes to the previous tab, Tab without modifiers to the next
/// one, Space toggles the selection, and any other character is handed on as typed.
pub proof fn lemma_keys_have_their_actions(no_modifiers: bool, c: char)
    ensures
        action_for_key(KeyPress { key: Key::Up, no_modifiers }) == Action::MoveUp,
        action_for_key(KeyPress { key: Key::Down, no_modifiers }) == Action::MoveDown,
        action_for_key(KeyPress { key: Key::Left, no_modifiers }) == Action::MoveLeft,
        action_for_key(KeyPress { key: Key::Right, no_modifiers }) == Action::MoveRight,
        action_for_key(KeyPress { key: Key::Up, no_modifiers }) != action_for_key(
            KeyPress { key: Key::Down, no_modifiers },
        ),
        action_for_key(KeyPress { key: Key::Enter, no_modifiers }) == Action::Enter,
        action_for_key(KeyPress { key: Key::Backspace, no_modifiers }) == Action::BackspaceKey,
        action_for_key(KeyPress { key: Key::Esc, no_modifiers }) == Action::CancelDialog,
        action_for_key(KeyPress { key: Key::BackTab, no_modifiers }) == Action::PreviousTab,
        action_for_key(KeyPress { key: Key::Tab, no_modifiers: true }) == Action::NextTab,
        action_for_key(KeyPress { key: Key::Char(' '), no_modifiers }) == Action::ToggleSelectCurrent,
        c != ' ' ==> action_for_key(KeyPress { key: Key::Char(c), no_modifiers }) == Action::InputChar(c),
        action_for_key(KeyPress { key: Key::Other, no_modifiers }) == Action::Tick,
{
}

} // verus!
