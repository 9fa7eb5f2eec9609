//! Key events as the engine reads them, and the normal-mode key map.

use vstd::prelude::*;

verus! {

/// The key of a key event.
#[derive(Debug, Clone, Copy, PartialEq, Eq, Structural)]
pub enum KeyCode {
    Char(char),
    Tab,
    BackTab,
    Enter,
    Esc,
    Backspace,
    Up,
    Down,
    PageUp,
    PageDown,
    /// Any key that has no meaning to the engine.
    Other,
}

/// The modifier keys held during a key event.
#[derive(Debug, Clone, Copy, PartialEq, Eq, Structural)]
pub enum KeyModifiers {
    /// No modifier key.
    Plain,
    /// The control key alone.
    Control,
    /// Any other modifier key or combination.
    Other,
}

/// A boolean mode that the toggle commands act on.
#[derive(Debug, Clone, Copy, PartialEq, Eq, Structural)]
pub enum ToggleTarget {
    Frequency,
    Wrap,
    ShowLocks,
    ShowGutter,
}

/// What a key is bound to in normal mode.
#[derive(Debug, Clone, Copy, PartialEq, Eq, Structural)]
pub enum Binding {
    /// `:` enters the command line.
    CommandLine,
    /// Tab selects the next field type.
    NextType,
    /// Shift-Tab selects the previous field type.
    PrevType,
    /// `h` shifts the alignment one byte back.
    ShiftBackward,
    /// `b` moves to the previous field.
    PrevField,
    /// `1` to `9` extend the count.
    Digit(char),
    /// `0` extends a count that has begun, and else moves to the first
    /// field.
    Zero,
    /// `$` moves to the last field.
    LastField,
    /// `j` and Down move down by the count.
    Down,
    /// `k` and Up move up by the count.
    Up,
    /// Control-d and PageDown move down half a page.
    PageDown,
    /// Control-u and PageUp move up half a page.
    PageUp,
    /// `L` locks fields at the cursor, as many as the count.
    Lock,
    /// `U` unlocks the field at the cursor.
    Unlock,
    /// `G` jumps to the last record.
    LastRecord,
    /// `y` begins the toggle prefix `yo`.
    PrefixY,
    /// `o` continues the toggle prefix `yo`.
    PrefixO,
    /// `[` begins a switch-on command.
    PrefixOn,
    /// `]` begins a switch-off command.
    PrefixOff,
    /// `f`, `w`, `l` or `g`: after a toggle prefix the letter of a mode, and
    /// else a command of its own.
    Letter(ToggleTarget),
    /// No binding.
    Unbound,
}

/// The normal-mode binding of a key event.
pub open spec fn binding_of(code: KeyCode, modifiers: KeyModifiers) -> Binding {
    let plain = modifiers == KeyModifiers::Plain;
    match code {
        KeyCode::Char(c) => if c == ':' {
            Binding::CommandLine
        } else if c == 'L' {
            Binding::Lock
        } else if c == 'U' {
            Binding::Unlock
        } else if c == 'G' {
            Binding::LastRecord
        } else if modifiers == KeyModifiers::Control {
            if c == 'd' {
                Binding::PageDown
            } else if c == 'u' {
                Binding::PageUp
            } else {
                Binding::Unbound
            }
        } else if !plain {
            Binding::Unbound
        } else if c == 'h' {
            Binding::ShiftBackward
        } else if c == 'b' {
            Binding::PrevField
        } else if '1' <= c <= '9' {
            Binding::Digit(c)
        } else if c == '0' {
            Binding::Zero
        } else if c == '$' {
            Binding::LastField
        } else if c == 'j' {
            Binding::Down
        } else if c == 'k' {
            Binding::Up
        } else if c == 'y' {
            Binding::PrefixY
        } else if c == 'o' {
            Binding::PrefixO
        } else if c == '[' {
            Binding::PrefixOn
        } else if c == ']' {
            Binding::PrefixOff
        } else if c == 'f' {
            Binding::Letter(ToggleTarget::Frequency)
        } else if c == 'w' {
            Binding::Letter(ToggleTarget::Wrap)
        } else if c == 'l' {
            Binding::Letter(ToggleTarget::ShowLocks)
        } else if c == 'g' {
            Binding::Letter(ToggleTarget::ShowGutter)
        } else {
            Binding::Unbound
        },
        KeyCode::Tab => if plain {
            Binding::NextType
        } else {
            Binding::Unbound
        },
        KeyCode::BackTab => Binding::PrevType,
        KeyCode::Down => Binding::Down,
        KeyCode::Up => Binding::Up,
        KeyCode::PageDown => Binding::PageDown,
        KeyCode::PageUp => Binding::PageUp,
        _ => Binding::Unbound,
    }
}

/// The normal-mode binding of a key event.
pub fn bind(code: KeyCode, modifiers: KeyModifiers) -> (b: Binding)
    ensures
        b == binding_of(code, modifiers),
{
    let plain = matches!(modifiers, KeyModifiers::Plain);
    match code {
        KeyCode::Char(c) => {
            if c == ':' {
                Binding::CommandLine
            } else if c == 'L' {
                Binding::Lock
            } else if c == 'U' {
                Binding::Unlock
            } else if c == 'G' {
                Binding::LastRecord
            } else if matches!(modifiers, KeyModifiers::Control) {
                if c == 'd' {
                    Binding::PageDown
                } else if c == 'u' {
                    Binding::PageUp
                } else {
                    Binding::Unbound
                }
            } else if !plain {
                Binding::Unbound
            } else if c == 'h' {
                Binding::ShiftBackward
            } else if c == 'b' {
                Binding::PrevField
            } else if '1' <= c && c <= '9' {
                Binding::Digit(c)
            } else if c == '0' {
                Binding::Zero
            } else if c == '$' {
                Binding::LastField
            } else if c == 'j' {
                Binding::Down
            } else if c == 'k' {
                Binding::Up
            } else if c == 'y' {
                Binding::PrefixY
            } else if c == 'o' {
                Binding::PrefixO
            } else if c == '[' {
                Binding::PrefixOn
            } else if c == ']' {
                Binding::PrefixOff
            } else if c == 'f' {
                Binding::Letter(ToggleTarget::Frequency)
            } else if c == 'w' {
                Binding::Letter(ToggleTarget::Wrap)
            } else if c == 'l' {
                Binding::Letter(ToggleTarget::ShowLocks)
            } else if c == 'g' {
                Binding::Letter(ToggleTarget::ShowGutter)
            } else {
                Binding::Unbound
            }
        },
        KeyCode::Tab => {
            if plain {
                Binding::NextType
            } else {
                Binding::Unbound
            }
        },
        KeyCode::BackTab => Binding::PrevType,
        KeyCode::Down => Binding::Down,
        KeyCode::Up => Binding::Up,
        KeyCode::PageDown => Binding::PageDown,
        KeyCode::PageUp => Binding::PageUp,
        _ => Binding::Unbound,
    }
}

} // verus!
