//! Which action a key press stands for on each screen.
use vstd::prelude::*;

use crate::app::{Action, Screen};

verus! {

/// A key press, as far as the interface tells keys apart.
#[derive(Clone, Copy, Debug, PartialEq, Eq, Structural)]
pub enum Key {
    Char(char),
    Up,
    Down,
    Enter,
    Esc,
    Backspace,
    Other,
}

/// Screens where a space is typed rather than toggling a selection.
pub open spec fn types_space(screen: Screen) -> bool {
    screen == Screen::CitySetup || screen == Screen::Movies || screen == Screen::Results
}

/// The action of a key: Ctrl-C (with no other modifier) and `Q` quit; a
/// space is typed while a query is being written or on a screen that types
/// it, and toggles otherwise; other characters are typed; arrows move,
/// Enter confirms, Escape goes back and Backspace erases.
pub open spec fn key_action(key: Key, control_only: bool, screen: Screen, query_nonempty: bool) -> Option<Action> {
    match key {
        Key::Char(c) => if c == 'c' && control_only {
            Some(Action::Quit)
        } else if c == 'Q' {
            Some(Action::Quit)
        } else if c == ' ' {
            if query_nonempty || types_space(screen) {
                Some(Action::Character(' '))
            } else {
                Some(Action::Toggle)
            }
        } else {
            Some(Action::Character(c))
        },
        Key::Up => Some(Action::Up),
        Key::Down => Some(Action::Down),
        Key::Enter => Some(Action::Confirm),
        Key::Esc => Some(Action::Back),
        Key::Backspace => Some(Action::Backspace),
        Key::Other => None,
    }
}

/// The action a key press stands for; `control_only` tells whether Control
/// was the only modifier held.
pub fn action_for_screen(key: Key, control_only: bool, screen: Screen, query_nonempty: bool) -> (r: Option<Action>)
    ensures
        r == key_action(key, control_only, screen, query_nonempty),
{
    match key {
        Key::Char(c) => {
            if c == 'c' && control_only {
                Some(Action::Quit)
            } else if c == 'Q' {
                Some(Action::Quit)
            } else if c == ' ' {
                if query_nonempty || screen == Screen::CitySetup || screen == Screen::Movies || screen
                    == Screen::Results {
                    Some(Action::Character(' '))
                } else {
                    Some(Action::Toggle)
                }
            } else {
                Some(Action::Character(c))
            }
        },
        Key::Up => Some(Action::Up),
        Key::Down => Some(Action::Down),
        Key::Enter => Some(Action::Confirm),
        Key::Esc => Some(Action::Back),
        Key::Backspace => Some(Action::Backspace),
        Key::Other => None,
    }
}

/// What each key means on every screen, whatever the modifiers and the
/// query: the arrows move up and down, Enter confirms, Escape goes back,
/// Backspace erases, unknown keys do nothing, `Q` and Ctrl-C quit, and any
/// other character but the space is typed.
pub proof fn lemma_key_meanings(control_only: bool, screen: Screen, query_nonempty: bool, c: char)
    ensures
        key_action(Key::Up, control_only, screen, query_nonempty) == Some(Action::Up),
        key_action(Key::Down, control_only, screen, query_nonempty) == Some(Action::Down),
        key_action(Key::Enter, control_only, screen, query_nonempty) == Some(Action::Confirm),
        key_action(Key::Esc, control_only, screen, query_nonempty) == Some(Action::Back),
        key_action(Key::Backspace, control_only, screen, query_nonempty) == Some(Action::Backspace),
        key_action(Key::Other, control_only, screen, query_nonempty) is None,
        key_action(Key::Char('Q'), control_only, screen, query_nonempty) == Some(Action::Quit),
        key_action(Key::Char('c'), true, screen, query_nonempty) == Some(Action::Quit),
        c != 'Q' && c != ' ' && !(c == 'c' && control_only) ==> key_action(
            Key::Char(c),
            control_only,
            screen,
            query_nonempty,
        ) == Some(Action::Character(c)),
        key_action(Key::Char(' '), control_only, screen, query_nonempty) == Some(Action::Toggle)
            || key_action(Key::Char(' '), control_only, screen, query_nonempty) == Some(
            Action::Character(' '),
        ),
{
}

} // verus!
