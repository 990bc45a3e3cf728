use vstd::prelude::*;

verus! {

/// A key, with the variants of crossterm's key codes that the browsers and
/// the form tell apart; every other key is `Other`.
#[derive(Debug, Clone, Copy, PartialEq, Eq, Structural)]
pub enum KeyCode {
    Char(char),
    Esc,
    Tab,
    BackTab,
    Enter,
    Up,
    Down,
    Left,
    Right,
    Backspace,
    Delete,
    Home,
    End,
    Other,
}

/// Modifier keys held with a key, as crossterm's bit set: shift `1`,
/// control `2`, alt `4`, super `8`, hyper `16`, meta `32`.
#[derive(Debug, Clone, Copy, PartialEq, Eq, Structural)]
pub struct KeyModifiers {
    pub bits: u8,
}

impl KeyModifiers {
    /// No modifier held.
    pub fn none() -> (m: KeyModifiers)
        ensures
            m.bits == 0,
    {
        KeyModifiers { bits: 0 }
    }

    /// Shift held.
    pub fn shift() -> (m: KeyModifiers)
        ensures
            m.bits == 1,
    {
        KeyModifiers { bits: 1 }
    }

    /// Control held.
    pub fn control() -> (m: KeyModifiers)
        ensures
            m.bits == 2,
    {
        KeyModifiers { bits: 2 }
    }

    /// Alt held.
    pub fn alt() -> (m: KeyModifiers)
        ensures
            m.bits == 4,
    {
        KeyModifiers { bits: 4 }
    }
}

/// A key press: the key and the modifiers held with it.
#[derive(Debug, Clone, Copy, PartialEq, Eq, Structural)]
pub struct KeyEvent {
    pub code: KeyCode,
    pub modifiers: KeyModifiers,
}

impl KeyEvent {
    pub fn new(code: KeyCode, modifiers: KeyModifiers) -> (k: KeyEvent)
        ensures
            k.code == code,
            k.modifiers == modifiers,
    {
        KeyEvent { code, modifiers }
    }
}

/// The bindings of the terminal UI.
#[derive(Debug, Clone, Copy, PartialEq, Eq, Structural)]
pub enum Binding {
    /// Submit the current form / confirm an action: Ctrl+S.
    Submit,
    /// Cancel / close without saving: Esc.
    Cancel,
    /// Move to the next field or list item: Tab.
    NextField,
    /// Move to the previous field: Shift+BackTab.
    PrevField,
    /// Confirm selection in a browser / list: Enter.
    Select,
    /// Move the list cursor up.
    Up,
    /// Move the list cursor down.
    Down,
}

/// The key press a binding stands for.
pub open spec fn binding_key(b: Binding) -> KeyEvent {
    match b {
        Binding::Submit => KeyEvent { code: KeyCode::Char('s'), modifiers: KeyModifiers { bits: 2 } },
        Binding::Cancel => KeyEvent { code: KeyCode::Esc, modifiers: KeyModifiers { bits: 0 } },
        Binding::NextField => KeyEvent { code: KeyCode::Tab, modifiers: KeyModifiers { bits: 0 } },
        Binding::PrevField => KeyEvent { code: KeyCode::BackTab, modifiers: KeyModifiers { bits: 1 } },
        Binding::Select => KeyEvent { code: KeyCode::Enter, modifiers: KeyModifiers { bits: 0 } },
        Binding::Up => KeyEvent { code: KeyCode::Up, modifiers: KeyModifiers { bits: 0 } },
        Binding::Down => KeyEvent { code: KeyCode::Down, modifiers: KeyModifiers { bits: 0 } },
    }
}

/// Whether `key` is exactly the key press bound to `b` (same key, same
/// modifiers).
pub fn is_binding(key: &KeyEvent, b: Binding) -> (r: bool)
    ensures
        r == (*key == binding_key(b)),
{
    let want = match b {
        Binding::Submit => KeyEvent { code: KeyCode::Char('s'), modifiers: KeyModifiers::control() },
        Binding::Cancel => KeyEvent { code: KeyCode::Esc, modifiers: KeyModifiers::none() },
        Binding::NextField => KeyEvent { code: KeyCode::Tab, modifiers: KeyModifiers::none() },
        Binding::PrevField => KeyEvent { code: KeyCode::BackTab, modifiers: KeyModifiers::shift() },
        Binding::Select => KeyEvent { code: KeyCode::Enter, modifiers: KeyModifiers::none() },
        Binding::Up => KeyEvent { code: KeyCode::Up, modifiers: KeyModifiers::none() },
        Binding::Down => KeyEvent { code: KeyCode::Down, modifiers: KeyModifiers::none() },
    };
    *key == want
}

} // verus!
