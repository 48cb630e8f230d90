//! Keys to game inputs. The terminal's key events are turned into a `Key` at the edge;
//! what each key means is decided here.

use vstd::prelude::*;

verus! {

/// What the player asked for.
#[derive(Debug, Clone, Copy, PartialEq, Eq)]
pub enum Input {
    Up,
    Down,
    Left,
    Right,
    Select,
    Back,
    Digit(u8),
    Character(char),
    Quit,
    Nothing,
}

/// A key as the terminal reports it, reduced to what the game reads.
#[derive(Debug, Clone, Copy, PartialEq, Eq)]
pub enum Key {
    Up,
    Down,
    Left,
    Right,
    Enter,
    Esc,
    Char(char),
    Other,
}

/// What a key means: arrows or vi keys move, Enter or space selects, Escape goes back,
/// Ctrl-Q quits, digits and other characters pass through; a released key means nothing.
pub open spec fn meaning(key: Key, pressed: bool, control: bool) -> Input {
    if !pressed {
        Input::Nothing
    } else {
        match key {
            Key::Up => Input::Up,
            Key::Down => Input::Down,
            Key::Left => Input::Left,
            Key::Right => Input::Right,
            Key::Enter => Input::Select,
            Key::Esc => Input::Back,
            Key::Char(c) => {
                if c == 'k' {
                    Input::Up
                } else if c == 'j' {
                    Input::Down
                } else if c == 'h' {
                    Input::Left
                } else if c == 'l' {
                    Input::Right
                } else if c == ' ' {
                    Input::Select
                } else if c == 'q' && control {
                    Input::Quit
                } else if '0' <= c <= '9' {
                    Input::Digit((c as u32 - '0' as u32) as u8)
                } else {
                    Input::Character(c)
                }
            },
            Key::Other => Input::Nothing,
        }
    }
}

/// Decodes a key; `pressed` is whether it went down or repeats, `control` whether
/// Control was held.
pub fn decode(key: Key, pressed: bool, control: bool) -> (r: Input)
    ensures
        r == meaning(key, pressed, control),
{
    if !pressed {
        return Input::Nothing;
    }
    match key {
        Key::Up => Input::Up,
        Key::Down => Input::Down,
        Key::Left => Input::Left,
        Key::Right => Input::Right,
        Key::Enter => Input::Select,
        Key::Esc => Input::Back,
        Key::Char(c) => {
            if c == 'k' {
                Input::Up
            } else if c == 'j' {
                Input::Down
            } else if c == 'h' {
                Input::Left
            } else if c == 'l' {
                Input::Right
            } else if c == ' ' {
                Input::Select
            } else if c == 'q' && control {
                Input::Quit
            } else if '0' <= c && c <= '9' {
                Input::Digit((c as u32 - '0' as u32) as u8)
            } else {
                Input::Character(c)
            }
        },
        Key::Other => Input::Nothing,
    }
}

} // verus!
