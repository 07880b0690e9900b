use panes::keys::{command_for_key, Command, KeyInput, KeyModifiers};
use panes::panel::NavDirection;

const NONE: KeyModifiers = KeyModifiers { ctrl: false, shift: false, alt: false };
const CTRL: KeyModifiers = KeyModifiers { ctrl: true, shift: false, alt: false };
const CTRL_SHIFT: KeyModifiers = KeyModifiers { ctrl: true, shift: true, alt: false };
const ALT: KeyModifiers = KeyModifiers { ctrl: false, shift: false, alt: true };

fn ch(s: &str) -> KeyInput {
    KeyInput::Character(s.to_string())
}

#[test]
fn ctrl_shift_t_opens_a_tab_in_either_case() {
    assert_eq!(command_for_key(&ch("t"), CTRL_SHIFT), Some(Command::NewTab));
    assert_eq!(command_for_key(&ch("T"), CTRL_SHIFT), Some(Command::NewTab));
    assert_eq!(command_for_key(&ch("t"), CTRL), None);
}

#[test]
fn ctrl_shift_w_closes_the_tab() {
    assert_eq!(command_for_key(&ch("W"), CTRL_SHIFT), Some(Command::CloseTab));
    assert_eq!(command_for_key(&ch("w"), CTRL_SHIFT), Some(Command::CloseTab));
}

#[test]
fn ctrl_tab_cycles_tabs() {
    assert_eq!(command_for_key(&KeyInput::Tab, CTRL), Some(Command::NextTab));
    assert_eq!(command_for_key(&KeyInput::Tab, CTRL_SHIFT), Some(Command::PrevTab));
    assert_eq!(command_for_key(&KeyInput::Tab, NONE), None);
}

#[test]
fn alt_shortcuts_split_and_close_panels() {
    assert_eq!(command_for_key(&ch("p"), ALT), Some(Command::SplitVertical));
    assert_eq!(command_for_key(&ch("P"), ALT), Some(Command::SplitVertical));
    assert_eq!(command_for_key(&ch("+"), ALT), Some(Command::SplitHorizontal));
    assert_eq!(command_for_key(&ch("="), ALT), Some(Command::SplitHorizontal));
    assert_eq!(command_for_key(&ch("-"), ALT), Some(Command::ClosePanel));
}

#[test]
fn alt_arrows_navigate() {
    assert_eq!(
        command_for_key(&KeyInput::ArrowLeft, ALT),
        Some(Command::Navigate(NavDirection::Left))
    );
    assert_eq!(
        command_for_key(&KeyInput::ArrowRight, ALT),
        Some(Command::Navigate(NavDirection::Right))
    );
    assert_eq!(
        command_for_key(&KeyInput::ArrowUp, ALT),
        Some(Command::Navigate(NavDirection::Up))
    );
    assert_eq!(
        command_for_key(&KeyInput::ArrowDown, ALT),
        Some(Command::Navigate(NavDirection::Down))
    );
    assert_eq!(command_for_key(&KeyInput::ArrowDown, CTRL), None);
}

#[test]
fn ctrl_plus_and_minus_change_the_font_size() {
    assert_eq!(command_for_key(&ch("+"), CTRL), Some(Command::IncreaseFontSize));
    assert_eq!(command_for_key(&ch("="), CTRL), Some(Command::IncreaseFontSize));
    assert_eq!(command_for_key(&ch("-"), CTRL), Some(Command::DecreaseFontSize));
}

#[test]
fn alt_wins_over_ctrl_when_both_are_held() {
    let both = KeyModifiers { ctrl: true, shift: false, alt: true };
    assert_eq!(command_for_key(&ch("-"), both), Some(Command::ClosePanel));
}

#[test]
fn other_keys_do_nothing() {
    assert_eq!(command_for_key(&ch("x"), CTRL_SHIFT), None);
    assert_eq!(command_for_key(&ch("tt"), CTRL_SHIFT), None);
    assert_eq!(command_for_key(&ch(""), ALT), None);
    assert_eq!(command_for_key(&KeyInput::Other, ALT), None);
    assert_eq!(command_for_key(&ch("t"), NONE), None);
}

#[test]
fn alt_4_and_alt_1_ask_for_grid_and_alone() {
    assert_eq!(command_for_key(&ch("4"), ALT), Some(Command::SplitIntoGrid));
    assert_eq!(command_for_key(&ch("1"), ALT), Some(Command::CloseAllExceptActive));
    assert_eq!(command_for_key(&ch("4"), CTRL), None);
}
