//! Keyboard shortcuts of the terminal window: which key press asks for which
//! operation on the tabs and panels.
use vstd::prelude::*;
use crate::panel::NavDirection;

verus! {

/// A pressed key, as far as the shortcuts tell keys apart.
#[derive(Debug, PartialEq, Eq)]
pub enum KeyInput {
    /// A key that produces text; the text it produces.
    Character(String),
    Tab,
    ArrowLeft,
    ArrowRight,
    ArrowUp,
    ArrowDown,
    /// Any other named key.
    Other,
}

/// The modifier keys held during a key press.
#[derive(Debug, Clone, Copy, PartialEq, Eq, Structural)]
pub struct KeyModifiers {
    pub ctrl: bool,
    pub shift: bool,
    pub alt: bool,
}

/// An operation that a shortcut asks for.
#[derive(Debug, Clone, Copy, PartialEq, Eq, Structural)]
pub enum Command {
    NewTab,
    CloseTab,
    NextTab,
    PrevTab,
    SplitVertical,
    SplitHorizontal,
    ClosePanel,
    SplitIntoGrid,
    CloseAllExceptActive,
    Navigate(NavDirection),
    IncreaseFontSize,
    DecreaseFontSize,
}

/// The text is the single character `c`.
pub open spec fn is_text(s: Seq<char>, c: char) -> bool {
    s == seq![c]
}

/// The operation that the key press asks for, if any.
pub open spec fn key_command(key: KeyInput, m: KeyModifiers) -> Option<Command> {
    let ctrl_shift = m.ctrl && m.shift;
    match key {
        KeyInput::Character(text) => {
            let s = text@;
            if ctrl_shift && (is_text(s, 't') || is_text(s, 'T')) {
                Some(Command::NewTab)
            } else if ctrl_shift && (is_text(s, 'w') || is_text(s, 'W')) {
                Some(Command::CloseTab)
            } else if m.alt && (is_text(s, 'p') || is_text(s, 'P')) {
                Some(Command::SplitVertical)
            } else if m.alt && (is_text(s, '+') || is_text(s, '=')) {
                Some(Command::SplitHorizontal)
            } else if m.alt && is_text(s, '-') {
                Some(Command::ClosePanel)
            } else if m.alt && is_text(s, '4') {
                Some(Command::SplitIntoGrid)
            } else if m.alt && is_text(s, '1') {
                Some(Command::CloseAllExceptActive)
            } else if m.ctrl && (is_text(s, '+') || is_text(s, '=')) {
                Some(Command::IncreaseFontSize)
            } else if m.ctrl && is_text(s, '-') {
                Some(Command::DecreaseFontSize)
            } else {
                None
            }
        },
        KeyInput::Tab => if m.ctrl && !m.shift {
            Some(Command::NextTab)
        } else if ctrl_shift {
            Some(Command::PrevTab)
        } else {
            None
        },
        KeyInput::ArrowLeft => if m.alt {
            Some(Command::Navigate(NavDirection::Left))
        } else {
            None
        },
        KeyInput::ArrowRight => if m.alt {
            Some(Command::Navigate(NavDirection::Right))
        } else {
            None
        },
        KeyInput::ArrowUp => if m.alt {
            Some(Command::Navigate(NavDirection::Up))
        } else {
            None
        },
        KeyInput::ArrowDown => if m.alt {
            Some(Command::Navigate(NavDirection::Down))
        } else {
            None
        },
        KeyInput::Other => None,
    }
}

/// The only modifier held is Alt.
pub open spec fn alt_only() -> KeyModifiers {
    KeyModifiers { ctrl: false, shift: false, alt: true }
}

/// The shortcuts, key by key:
/// - Ctrl+Shift with T or W (either case) opens or closes a tab, whatever
///   else is held;
/// - once Alt is held, P splits down, `+` or `=` splits right, `-` closes
///   the panel, 4 asks for a grid, 1 keeps the focused panel alone, and the
///   arrows move focus, whether Ctrl or Shift are held or not; for every
///   character but T and W, Ctrl and Shift change nothing under Alt;
/// - Ctrl without Alt makes `+` or `=` larger and `-` smaller text;
/// - Ctrl+Tab moves to the next tab, Ctrl+Shift+Tab to the previous one;
/// - with neither Ctrl nor Alt held, no key asks for anything.
pub proof fn lemma_shortcuts(text: String, m: KeyModifiers)
    ensures
        ({
            let c = KeyInput::Character(text);
            let s = text@;
            &&& m.ctrl && m.shift && (is_text(s, 't') || is_text(s, 'T')) ==> key_command(c, m)
                == Some(Command::NewTab)
            &&& m.ctrl && m.shift && (is_text(s, 'w') || is_text(s, 'W')) ==> key_command(c, m)
                == Some(Command::CloseTab)
            &&& m.alt && (is_text(s, 'p') || is_text(s, 'P')) ==> key_command(c, m) == Some(
                Command::SplitVertical,
            )
            &&& m.alt && (is_text(s, '+') || is_text(s, '=')) ==> key_command(c, m) == Some(
                Command::SplitHorizontal,
            )
            &&& m.alt && is_text(s, '-') ==> key_command(c, m) == Some(Command::ClosePanel)
            &&& m.alt && is_text(s, '4') ==> key_command(c, m) == Some(Command::SplitIntoGrid)
            &&& m.alt && is_text(s, '1') ==> key_command(c, m) == Some(
                Command::CloseAllExceptActive,
            )
            &&& m.alt && !(is_text(s, 't') || is_text(s, 'T') || is_text(s, 'w') || is_text(
                s,
                'W',
            )) ==> key_command(c, m) == key_command(c, alt_only())
            &&& m.ctrl && !m.alt && (is_text(s, '+') || is_text(s, '=')) ==> key_command(c, m)
                == Some(Command::IncreaseFontSize)
            &&& m.ctrl && !m.alt && is_text(s, '-') ==> key_command(c, m) == Some(
                Command::DecreaseFontSize,
            )
            &&& !m.ctrl && !m.alt ==> key_command(c, m) is None
        }),
        m.alt ==> key_command(KeyInput::ArrowLeft, m) == Some(Command::Navigate(NavDirection::Left)),
        m.alt ==> key_command(KeyInput::ArrowRight, m) == Some(
            Command::Navigate(NavDirection::Right),
        ),
        m.alt ==> key_command(KeyInput::ArrowUp, m) == Some(Command::Navigate(NavDirection::Up)),
        m.alt ==> key_command(KeyInput::ArrowDown, m) == Some(Command::Navigate(NavDirection::Down)),
        m.ctrl && !m.shift ==> key_command(KeyInput::Tab, m) == Some(Command::NextTab),
        m.ctrl && m.shift ==> key_command(KeyInput::Tab, m) == Some(Command::PrevTab),
        !m.ctrl && !m.alt ==> key_command(KeyInput::Tab, m) is None,
        !m.ctrl && !m.alt ==> key_command(KeyInput::ArrowLeft, m) is None,
        key_command(KeyInput::Other, m) is None,
{
    let s = text@;
    lemma_texts_differ(s);
}

/// A text is at most one single character.
proof fn lemma_texts_differ(s: Seq<char>)
    ensures
        forall|a: char, b: char| #[trigger] is_text(s, a) && #[trigger] is_text(s, b) ==> a == b,
{
    assert forall|a: char, b: char| #[trigger] is_text(s, a) && #[trigger] is_text(s, b) implies a
        == b by {
        assert(seq![a][0] == a);
        assert(seq![b][0] == b);
    }
}

/// Whether the text is the single character `c`.
fn text_is(text: &str, c: char) -> (r: bool)
    ensures
        r == is_text(text@, c),
{
    if text.unicode_len() == 1 {
        let first = text.get_char(0);
        assert(text@ =~= seq![first] ==> (first == c <==> text@ == seq![c]));
        if first == c {
            assert(text@ =~= seq![c]);
            true
        } else {
            assert(text@[0] != seq![c][0]);
            false
        }
    } else {
        false
    }
}

/// The operation that the key press asks for, if any.
pub fn command_for_key(key: &KeyInput, mods: KeyModifiers) -> (r: Option<Command>)
    ensures
        r == key_command(*key, mods),
{
    let ctrl_shift = mods.ctrl && mods.shift;
    match key {
        KeyInput::Character(text) => {
            let s = text.as_str();
            if ctrl_shift && (text_is(s, 't') || text_is(s, 'T')) {
                Some(Command::NewTab)
            } else if ctrl_shift && (text_is(s, 'w') || text_is(s, 'W')) {
                Some(Command::CloseTab)
            } else if mods.alt && (text_is(s, 'p') || text_is(s, 'P')) {
                Some(Command::SplitVertical)
            } else if mods.alt && (text_is(s, '+') || text_is(s, '=')) {
                Some(Command::SplitHorizontal)
            } else if mods.alt && text_is(s, '-') {
                Some(Command::ClosePanel)
            } else if mods.alt && text_is(s, '4') {
                Some(Command::SplitIntoGrid)
            } else if mods.alt && text_is(s, '1') {
                Some(Command::CloseAllExceptActive)
            } else if mods.ctrl && (text_is(s, '+') || text_is(s, '=')) {
                Some(Command::IncreaseFontSize)
            } else if mods.ctrl && text_is(s, '-') {
                Some(Command::DecreaseFontSize)
            } else {
                None
            }
        },
        KeyInput::Tab => if mods.ctrl && !mods.shift {
            Some(Command::NextTab)
        } else if ctrl_shift {
            Some(Command::PrevTab)
        } else {
            None
        },
        KeyInput::ArrowLeft => if mods.alt {
            Some(Command::Navigate(NavDirection::Left))
        } else {
            None
        },
        KeyInput::ArrowRight => if mods.alt {
            Some(Command::Navigate(NavDirection::Right))
        } else {
            None
        },
        KeyInput::ArrowUp => if mods.alt {
            Some(Command::Navigate(NavDirection::Up))
        } else {
            None
        },
        KeyInput::ArrowDown => if mods.alt {
            Some(Command::Navigate(NavDirection::Down))
        } else {
            None
        },
        KeyInput::Other => None,
    }
}

} // verus!
