use panes::panel::{NavDirection, PanelId, PanelNode, TerminalKey};
use panes::state::{AppState, Tab, TabId};

fn leaf(id: u64) -> PanelNode {
    PanelNode::Leaf(PanelId(id), TerminalKey(100 + id))
}

fn h(a: PanelNode, b: PanelNode) -> PanelNode {
    PanelNode::Horizontal(Box::new(a), Box::new(b))
}

fn v(a: PanelNode, b: PanelNode) -> PanelNode {
    PanelNode::Vertical(Box::new(a), Box::new(b))
}

fn fresh() -> AppState {
    AppState::new("/bin/sh".to_string(), TabId(1), PanelId(1), TerminalKey(101))
}

/// A state with tabs 1, 2, 3 (one panel each, panels 1, 2, 3), showing `active`.
fn three_tabs(active: usize) -> AppState {
    let mut s = fresh();
    s.new_tab(TabId(2), PanelId(2), TerminalKey(102));
    s.new_tab(TabId(3), PanelId(3), TerminalKey(103));
    s.active_tab = active;
    s
}

fn tab_ids(s: &AppState) -> Vec<usize> {
    s.tabs.iter().map(|t| t.id.0).collect()
}

#[test]
fn new_state_has_one_tab_of_one_panel() {
    let s = fresh();
    assert_eq!(s.tabs.len(), 1);
    assert_eq!(s.active_tab, 0);
    assert_eq!(s.shell, "/bin/sh");
    let t = &s.tabs[0];
    assert_eq!(t.id, TabId(1));
    assert_eq!(t.title, "Terminal 1");
    assert_eq!(t.panels, leaf(1));
    assert_eq!(t.active_panel, PanelId(1));
}

#[test]
fn tab_new_builds_a_single_panel_tab() {
    let t = Tab::new(4, TabId(9), PanelId(5), TerminalKey(6));
    assert_eq!(t.title, "Terminal 5");
    assert_eq!(t.panels, PanelNode::Leaf(PanelId(5), TerminalKey(6)));
    assert_eq!(t.active_panel, PanelId(5));
    assert_eq!(t.clone(), t);
}

#[test]
fn new_tab_appends_and_shows_it() {
    let mut s = fresh();
    s.new_tab(TabId(2), PanelId(2), TerminalKey(102));
    assert_eq!(s.tabs.len(), 2);
    assert_eq!(s.active_tab, 1);
    assert_eq!(s.tabs[1].title, "Terminal 2");
    assert_eq!(s.tabs[1].panels, leaf(2));
    assert_eq!(s.tabs[0].id, TabId(1));
}

#[test]
fn active_tab_and_active_terminal() {
    let s = three_tabs(1);
    assert_eq!(s.active_tab().unwrap().id, TabId(2));
    assert_eq!(s.active_terminal(), Some(TerminalKey(102)));
    let mut out = three_tabs(1);
    out.active_tab = 7;
    assert!(out.active_tab().is_none());
    assert_eq!(out.active_terminal(), None);
}

#[test]
fn active_tab_mut_changes_the_shown_tab() {
    let mut s = three_tabs(2);
    s.active_tab_mut().unwrap().title = "edited".to_string();
    assert_eq!(s.tabs[2].title, "edited");
    s.active_tab = 5;
    assert!(s.active_tab_mut().is_none());
}

#[test]
fn close_active_tab_keeps_the_last_tab() {
    let mut s = fresh();
    s.close_active_tab();
    assert_eq!(s, fresh());
}

#[test]
fn close_active_tab_in_the_middle_shows_the_next() {
    let mut s = three_tabs(1);
    s.close_active_tab();
    assert_eq!(tab_ids(&s), vec![1, 3]);
    assert_eq!(s.active_tab, 1);
}

#[test]
fn close_last_active_tab_shows_the_new_last() {
    let mut s = three_tabs(2);
    s.close_active_tab();
    assert_eq!(tab_ids(&s), vec![1, 2]);
    assert_eq!(s.active_tab, 1);
}

#[test]
fn next_tab_wraps_around() {
    let mut s = three_tabs(1);
    s.next_tab();
    assert_eq!(s.active_tab, 2);
    s.next_tab();
    assert_eq!(s.active_tab, 0);
}

#[test]
fn prev_tab_wraps_around() {
    let mut s = three_tabs(1);
    s.prev_tab();
    assert_eq!(s.active_tab, 0);
    s.prev_tab();
    assert_eq!(s.active_tab, 2);
}

#[test]
fn prev_tab_undoes_next_tab() {
    for start in 0..3 {
        let mut s = three_tabs(start);
        s.next_tab();
        s.prev_tab();
        assert_eq!(s.active_tab, start);
        s.prev_tab();
        s.next_tab();
        assert_eq!(s.active_tab, start);
    }
}

#[test]
fn tab_moves_on_no_tabs_do_nothing() {
    let mut s = fresh();
    s.tabs.clear();
    s.next_tab();
    assert_eq!(s.active_tab, 0);
    s.prev_tab();
    assert_eq!(s.active_tab, 0);
}

#[test]
fn split_horizontal_puts_the_new_panel_right_and_focuses_it() {
    let mut s = fresh();
    s.split_horizontal(PanelId(2), TerminalKey(102));
    assert_eq!(s.tabs[0].panels, h(leaf(1), leaf(2)));
    assert_eq!(s.tabs[0].active_panel, PanelId(2));
}

#[test]
fn split_vertical_puts_the_new_panel_below_and_focuses_it() {
    let mut s = fresh();
    s.split_horizontal(PanelId(2), TerminalKey(102));
    s.split_vertical(PanelId(3), TerminalKey(103));
    assert_eq!(s.tabs[0].panels, h(leaf(1), v(leaf(2), leaf(3))));
    assert_eq!(s.tabs[0].active_panel, PanelId(3));
    assert_eq!(s.tabs[0].panels.leaves().len(), 3);
}

#[test]
fn split_without_a_shown_tab_does_nothing() {
    let mut s = three_tabs(0);
    s.active_tab = 3;
    let before = s.tabs.clone();
    s.split_horizontal(PanelId(8), TerminalKey(108));
    assert_eq!(s.tabs, before);
}

#[test]
fn close_active_panel_focuses_the_last_panel() {
    let mut s = fresh();
    s.split_horizontal(PanelId(2), TerminalKey(102));
    s.split_vertical(PanelId(3), TerminalKey(103));
    s.navigate(NavDirection::Left);
    assert_eq!(s.tabs[0].active_panel, PanelId(1));
    let focus = s.close_active_panel();
    assert_eq!(s.tabs[0].panels, v(leaf(2), leaf(3)));
    assert_eq!(focus, Some(PanelId(3)));
    assert_eq!(s.tabs[0].active_panel, PanelId(3));
}

#[test]
fn close_the_only_panel_does_nothing() {
    let mut s = fresh();
    assert_eq!(s.close_active_panel(), None);
    assert_eq!(s, fresh());
}

#[test]
fn close_undoes_split() {
    let mut s = fresh();
    s.split_horizontal(PanelId(2), TerminalKey(102));
    let before = s.tabs[0].panels.clone();
    s.split_vertical(PanelId(3), TerminalKey(103));
    s.close_active_panel();
    assert_eq!(s.tabs[0].panels, before);
}

#[test]
fn navigate_moves_focus_and_keeps_the_layout() {
    let mut s = fresh();
    s.split_horizontal(PanelId(2), TerminalKey(102));
    s.navigate(NavDirection::Left);
    assert_eq!(s.tabs[0].active_panel, PanelId(1));
    s.navigate(NavDirection::Up);
    assert_eq!(s.tabs[0].active_panel, PanelId(1));
    s.navigate(NavDirection::Right);
    assert_eq!(s.tabs[0].active_panel, PanelId(2));
    assert_eq!(s.tabs[0].panels, h(leaf(1), leaf(2)));
}

#[test]
fn select_tab_by_id() {
    let mut s = three_tabs(0);
    s.select_tab(TabId(3));
    assert_eq!(s.active_tab, 2);
    s.select_tab(TabId(42));
    assert_eq!(s.active_tab, 2);
}

#[test]
fn close_tab_by_id_before_the_shown_one() {
    let mut s = three_tabs(2);
    let focus = s.close_tab(TabId(1));
    assert_eq!(tab_ids(&s), vec![2, 3]);
    assert_eq!(s.active_tab, 1);
    assert_eq!(focus, Some(PanelId(3)));
}

#[test]
fn close_tab_keeps_the_position_shown() {
    let mut s = three_tabs(0);
    let focus = s.close_tab(TabId(3));
    assert_eq!(tab_ids(&s), vec![1, 2]);
    assert_eq!(s.active_tab, 0);
    assert_eq!(focus, Some(PanelId(1)));
}

#[test]
fn close_tab_unknown_or_last_does_nothing() {
    let mut s = three_tabs(0);
    assert_eq!(s.close_tab(TabId(9)), None);
    assert_eq!(tab_ids(&s), vec![1, 2, 3]);
    let mut one = fresh();
    assert_eq!(one.close_tab(TabId(1)), None);
    assert_eq!(one, fresh());
}

#[test]
fn set_tab_title_changes_the_named_tab() {
    let mut s = three_tabs(0);
    s.set_tab_title(TabId(2), "vim".to_string());
    assert_eq!(s.tabs[1].title, "vim");
    assert_eq!(s.tabs[0].title, "Terminal 1");
}

#[test]
fn set_tab_title_ignores_empty_titles_and_unknown_tabs() {
    let mut s = three_tabs(0);
    let before = s.clone();
    s.set_tab_title(TabId(2), String::new());
    s.set_tab_title(TabId(7), "x".to_string());
    assert_eq!(s, before);
}

#[test]
fn tab_entries_list_id_title_and_shown() {
    let s = three_tabs(1);
    let e = s.tab_entries();
    assert_eq!(
        e,
        vec![
            (TabId(1), "Terminal 1".to_string(), false),
            (TabId(2), "Terminal 2".to_string(), true),
            (TabId(3), "Terminal 3".to_string(), false),
        ]
    );
}

#[test]
fn position_of_finds_the_first_match() {
    let mut s = three_tabs(0);
    s.tabs[2].id = TabId(2);
    assert_eq!(s.position_of(TabId(2)), Some(1));
    assert_eq!(s.position_of(TabId(5)), None);
}

fn well_formed(s: &AppState) -> bool {
    if s.tabs.is_empty() || s.active_tab >= s.tabs.len() {
        return false;
    }
    s.tabs.iter().all(|t| {
        let l = t.panels.leaves();
        let mut d = l.clone();
        d.sort_by_key(|p| p.0);
        d.dedup();
        l.contains(&t.active_panel) && d.len() == l.len()
    })
}

#[test]
fn every_operation_keeps_the_state_well_formed() {
    let mut s = fresh();
    assert!(well_formed(&s));
    let mut next = 10u64;
    for step in 0..60u64 {
        match step % 9 {
            0 => s.split_horizontal(PanelId(next), TerminalKey(next)),
            1 => s.split_vertical(PanelId(next), TerminalKey(next)),
            2 => s.navigate(NavDirection::Left),
            3 => s.new_tab(TabId(next as usize), PanelId(next), TerminalKey(next)),
            4 => {
                s.close_active_panel();
            }
            5 => s.navigate(NavDirection::Down),
            6 => s.next_tab(),
            7 => s.close_active_tab(),
            _ => s.prev_tab(),
        }
        next += 1;
        assert!(well_formed(&s), "after step {}", step);
    }
}

#[test]
fn close_all_except_active_keeps_the_focused_panel() {
    let mut s = fresh();
    s.split_horizontal(PanelId(2), TerminalKey(102));
    s.split_vertical(PanelId(3), TerminalKey(103));
    s.navigate(NavDirection::Up);
    assert_eq!(s.tabs[0].active_panel, PanelId(2));
    s.close_all_except_active();
    assert_eq!(s.tabs[0].panels, leaf(2));
    assert_eq!(s.tabs[0].active_panel, PanelId(2));
    assert!(well_formed(&s));
}

#[test]
fn close_all_except_active_on_a_single_panel_changes_nothing() {
    let mut s = fresh();
    s.close_all_except_active();
    assert_eq!(s, fresh());
}

#[test]
fn new_tabs_are_not_outputting() {
    let s = three_tabs(0);
    assert!(s.tabs.iter().all(|t| !t.outputting && t.last_output.is_none()));
}

#[test]
fn record_output_marks_the_tab() {
    let mut s = three_tabs(0);
    s.record_output(TabId(2), 500);
    assert!(s.tabs[1].outputting);
    assert_eq!(s.tabs[1].last_output, Some(500));
    assert!(!s.tabs[0].outputting);
    assert_eq!(s.tabs[0].last_output, None);
    s.record_output(TabId(9), 600);
    assert_eq!(s.tabs.iter().filter(|t| t.outputting).count(), 1);
}

#[test]
fn sweep_idle_clears_marks_after_the_idle_time() {
    let mut s = three_tabs(0);
    s.record_output(TabId(1), 1000);
    s.record_output(TabId(2), 1800);
    assert!(!s.any_idle(2000, 1000));
    s.sweep_idle(2000, 1000);
    assert!(s.tabs[0].outputting && s.tabs[1].outputting);
    assert!(s.any_idle(2001, 1000));
    s.sweep_idle(2001, 1000);
    assert!(!s.tabs[0].outputting);
    assert!(s.tabs[1].outputting);
    s.sweep_idle(5000, 1000);
    assert!(!s.tabs[1].outputting);
    assert!(!s.any_idle(5000, 1000));
}

#[test]
fn sweep_idle_with_a_clock_behind_keeps_marks() {
    let mut s = three_tabs(0);
    s.record_output(TabId(3), 9000);
    s.sweep_idle(100, 10);
    assert!(s.tabs[2].outputting);
}

#[test]
fn split_inserts_the_new_panel_after_the_focused_one() {
    let mut s = fresh();
    s.split_horizontal(PanelId(2), TerminalKey(102));
    s.navigate(NavDirection::Left);
    s.split_vertical(PanelId(5), TerminalKey(105));
    assert_eq!(
        s.tabs[0].panels.leaves(),
        vec![PanelId(1), PanelId(5), PanelId(2)]
    );
}
