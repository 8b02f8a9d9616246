//! Key bindings.
use crate::intent::Intent;
use vstd::prelude::*;

verus! {

/// The key of a key press.
#[derive(Debug, Clone, Copy, PartialEq, Eq, Structural)]
pub enum KeyCode {
    Char(char),
    Esc,
    Up,
    Down,
    Enter,
    PageUp,
    PageDown,
    Backspace,
    /// Any other key.
    Other,
}

/// Modifier bits of a key press (the terminal's encoding).
pub const SHIFT: u8 = 0b0000_0001;
pub const CONTROL: u8 = 0b0000_0010;
pub const ALT: u8 = 0b0000_0100;

/// A key press: the key and the set of modifiers held with it.
#[derive(Debug, Clone, Copy, PartialEq, Eq, Structural)]
pub struct KeyEvent {
    pub code: KeyCode,
    pub modifiers: u8,
}

/// The intent bound to a key press. Ctrl-u and Ctrl-d need Control alone.
pub open spec fn key_intent(event: KeyEvent) -> Option<Intent> {
    match event.code {
        KeyCode::Char(c) => if c == 'q' {
            Some(Intent::Cancel)
        } else if c == 'j' {
            Some(Intent::MoveDown)
        } else if c == 'k' {
            Some(Intent::MoveUp)
        } else if c == 'u' && event.modifiers == CONTROL {
            Some(Intent::ScrollDetailsUp)
        } else if c == 'd' && event.modifiers == CONTROL {
            Some(Intent::ScrollDetailsDown)
        } else if c == 'd' {
            Some(Intent::ToggleDiff)
        } else if c == 'b' {
            Some(Intent::BranchPicker)
        } else if c == '/' {
            Some(Intent::Search)
        } else if c == '?' {
            Some(Intent::Help)
        } else {
            None
        },
        KeyCode::Esc => Some(Intent::Cancel),
        KeyCode::Down => Some(Intent::MoveDown),
        KeyCode::Up => Some(Intent::MoveUp),
        KeyCode::Enter => Some(Intent::ToggleDiff),
        KeyCode::PageDown => Some(Intent::PageDown),
        KeyCode::PageUp => Some(Intent::PageUp),
        _ => None,
    }
}

pub fn map_key(event: KeyEvent) -> (res: Option<Intent>)
    ensures
        res == key_intent(event),
{
    match event.code {
        KeyCode::Char('q') | KeyCode::Esc => Some(Intent::Cancel),
        KeyCode::Char('j') | KeyCode::Down => Some(Intent::MoveDown),
        KeyCode::Char('k') | KeyCode::Up => Some(Intent::MoveUp),
        KeyCode::Char('u') if event.modifiers == CONTROL => Some(Intent::ScrollDetailsUp),
        KeyCode::Char('d') if event.modifiers == CONTROL => Some(Intent::ScrollDetailsDown),
        KeyCode::Enter => Some(Intent::ToggleDiff),
        KeyCode::Char('d') => Some(Intent::ToggleDiff),
        KeyCode::Char('b') => Some(Intent::BranchPicker),
        KeyCode::Char('/') => Some(Intent::Search),
        KeyCode::Char('?') => Some(Intent::Help),
        KeyCode::PageDown => Some(Intent::PageDown),
        KeyCode::PageUp => Some(Intent::PageUp),
        _ => None,
    }
}

/// Control characters (general category Cc), as `char::is_control` reports them.
pub open spec fn is_control_char(c: char) -> bool {
    (c as u32) <= 0x1f || (0x7f <= (c as u32) <= 0x9f)
}

pub fn is_control(c: char) -> (res: bool)
    ensures
        res == is_control_char(c),
{
    let u = c as u32;
    u <= 0x1f || (0x7f <= u && u <= 0x9f)
}

pub fn help_text() -> (res: &'static str)
    ensures
        res@ == "j/k or arrows  move selection\nEnter or d     toggle commit diff\nb              branch filter\n/              search commits\nCtrl-u/d       scroll details/diff\n?              this help\nEsc            close pane / quit\nq              quit"@,
{
    "j/k or arrows  move selection\nEnter or d     toggle commit diff\nb              branch filter\n/              search commits\nCtrl-u/d       scroll details/diff\n?              this help\nEsc            close pane / quit\nq              quit"
}

/// The key table: whatever modifiers are held, `j` and Down move down, `k`
/// and Up move up, Enter toggles the diff, `b` opens the branch picker, `/`
/// the search, `?` the help, `q` and Esc cancel, and the page keys page; `d`
/// toggles the diff unless Control alone is held, when it scrolls the details
/// down, as Control-`u` scrolls them up.
pub proof fn law_key_table(modifiers: u8)
    ensures
        key_intent(KeyEvent { code: KeyCode::Char('j'), modifiers }) == Some(Intent::MoveDown),
        key_intent(KeyEvent { code: KeyCode::Down, modifiers }) == Some(Intent::MoveDown),
        key_intent(KeyEvent { code: KeyCode::Char('k'), modifiers }) == Some(Intent::MoveUp),
        key_intent(KeyEvent { code: KeyCode::Up, modifiers }) == Some(Intent::MoveUp),
        key_intent(KeyEvent { code: KeyCode::Enter, modifiers }) == Some(Intent::ToggleDiff),
        modifiers != CONTROL ==> key_intent(KeyEvent { code: KeyCode::Char('d'), modifiers }) == Some(
            Intent::ToggleDiff,
        ),
        key_intent(KeyEvent { code: KeyCode::Char('d'), modifiers: CONTROL }) == Some(Intent::ScrollDetailsDown),
        key_intent(KeyEvent { code: KeyCode::Char('u'), modifiers: CONTROL }) == Some(Intent::ScrollDetailsUp),
        key_intent(KeyEvent { code: KeyCode::Char('b'), modifiers }) == Some(Intent::BranchPicker),
        key_intent(KeyEvent { code: KeyCode::Char('/'), modifiers }) == Some(Intent::Search),
        key_intent(KeyEvent { code: KeyCode::Char('?'), modifiers }) == Some(Intent::Help),
        key_intent(KeyEvent { code: KeyCode::Char('q'), modifiers }) == Some(Intent::Cancel),
        key_intent(KeyEvent { code: KeyCode::Esc, modifiers }) == Some(Intent::Cancel),
        key_intent(KeyEvent { code: KeyCode::PageDown, modifiers }) == Some(Intent::PageDown),
        key_intent(KeyEvent { code: KeyCode::PageUp, modifiers }) == Some(Intent::PageUp),
{
}

} // verus!
