//! The tabs of the terminal window, each with its panel layout and focused
//! panel, and the operations the front end performs on them.
use vstd::prelude::*;
use crate::panel::{
    lemma_neighbour_in_layout, lemma_replaced_absent, lemma_replaced_leaves,
    lemma_terminal_of_contains, NavDirection,
    PanelId, PanelNode, TerminalKey,
};
use crate::sequences::{
    lemma_concat_contains, lemma_concat_no_duplicates, lemma_remove_first_contains,
    lemma_remove_first_no_duplicates, lemma_single_contains, lemma_subst_contains,
    lemma_subst_at, lemma_subst_no_duplicates, remove_first, subst,
};
use crate::title::{tab_title, tab_title_text};

verus! {

/// Identifies a tab.
#[derive(Debug, Clone, Copy, PartialEq, Eq, Hash, Structural)]
pub struct TabId(pub usize);

/// One tab: its title, its panel layout, the panel that has focus, whether
/// its terminals are producing output, and when they last did (in
/// milliseconds of the front end's clock).
#[derive(Debug, PartialEq, Eq)]
pub struct Tab {
    pub id: TabId,
    pub title: String,
    pub panels: PanelNode,
    pub active_panel: PanelId,
    pub outputting: bool,
    pub last_output: Option<u64>,
}

impl Clone for Tab {
    fn clone(&self) -> (res: Self)
        ensures
            res == *self,
    {
        Tab {
            id: self.id,
            title: self.title.clone(),
            panels: self.panels.clone(),
            active_panel: self.active_panel,
            outputting: self.outputting,
            last_output: self.last_output,
        }
    }
}

/// The layout that splits the leaf `(panel, terminal)` into itself and the
/// new leaf `(new_panel, new_terminal)`, side by side when `horizontal`,
/// one above the other otherwise.
pub open spec fn split_node(
    horizontal: bool,
    panel: PanelId,
    terminal: TerminalKey,
    new_panel: PanelId,
    new_terminal: TerminalKey,
) -> PanelNode {
    if horizontal {
        PanelNode::Horizontal(
            Box::new(PanelNode::Leaf(panel, terminal)),
            Box::new(PanelNode::Leaf(new_panel, new_terminal)),
        )
    } else {
        PanelNode::Vertical(
            Box::new(PanelNode::Leaf(panel, terminal)),
            Box::new(PanelNode::Leaf(new_panel, new_terminal)),
        )
    }
}

impl Tab {
    /// The focused panel is in the layout, and no panel occurs twice.
    pub open spec fn wf(self) -> bool {
        &&& self.panels.leaf_seq().contains(self.active_panel)
        &&& self.panels.leaf_seq().no_duplicates()
    }

    /// This is the tab that opens at position `index` with one panel.
    pub open spec fn is_new_tab(
        self,
        index: nat,
        id: TabId,
        panel: PanelId,
        terminal: TerminalKey,
    ) -> bool {
        &&& self.id == id
        &&& self.title@ == tab_title_text(index)
        &&& self.panels == PanelNode::Leaf(panel, terminal)
        &&& self.active_panel == panel
        &&& !self.outputting
        &&& self.last_output is None
    }

    /// The tab after its focused panel is split and the new panel takes focus.
    pub open spec fn split(
        self,
        horizontal: bool,
        new_panel: PanelId,
        new_terminal: TerminalKey,
    ) -> Tab {
        Tab {
            id: self.id,
            title: self.title,
            panels: self.panels.replaced(
                self.active_panel,
                split_node(
                    horizontal,
                    self.active_panel,
                    self.panels.terminal_of(self.active_panel).unwrap(),
                    new_panel,
                    new_terminal,
                ),
            ),
            active_panel: new_panel,
            outputting: self.outputting,
            last_output: self.last_output,
        }
    }

    /// The tab with layout `panels` and focus on `panel`.
    pub open spec fn with_panels(self, panels: PanelNode, panel: PanelId) -> Tab {
        Tab {
            id: self.id,
            title: self.title,
            panels,
            active_panel: panel,
            outputting: self.outputting,
            last_output: self.last_output,
        }
    }

    /// A tab at position `index` of the tab list, with one panel.
    pub fn new(index: usize, id: TabId, panel: PanelId, terminal: TerminalKey) -> (r: Tab)
        requires
            index < usize::MAX,
        ensures
            r.is_new_tab(index as nat, id, panel, terminal),
            r.wf(),
    {
        proof {
            lemma_single_contains(panel, panel);
        }
        Tab {
            id,
            title: tab_title(index),
            panels: PanelNode::Leaf(panel, terminal),
            active_panel: panel,
            outputting: false,
            last_output: None,
        }
    }
}

/// The milliseconds from `then` to `now`; zero when `then` is later.
pub open spec fn elapsed(now: u64, then: u64) -> nat {
    if now >= then {
        (now - then) as nat
    } else {
        0
    }
}

impl Tab {
    /// The tab is marked as producing output, but has produced none for
    /// longer than `idle` (or never did).
    pub open spec fn is_idle(self, now: u64, idle: u64) -> bool {
        &&& self.outputting
        &&& match self.last_output {
            Some(then) => elapsed(now, then) > idle,
            None => true,
        }
    }

    /// The tab with its output mark and last output time set.
    pub open spec fn with_activity(self, outputting: bool, last_output: Option<u64>) -> Tab {
        Tab {
            id: self.id,
            title: self.title,
            panels: self.panels,
            active_panel: self.active_panel,
            outputting,
            last_output,
        }
    }
}

/// The tab after `i` in a cyclic list of `len` tabs.
pub open spec fn next_index(i: nat, len: nat) -> nat {
    (i + 1) % len
}

/// The tab before `i` in a cyclic list of `len` tabs.
pub open spec fn prev_index(i: nat, len: nat) -> nat {
    if i == 0 {
        (len - 1) as nat
    } else {
        (i - 1) as nat
    }
}

/// The position of the first tab with id `id`.
pub open spec fn first_tab_with(tabs: Seq<Tab>, id: TabId, i: int) -> bool {
    &&& 0 <= i < tabs.len()
    &&& tabs[i].id == id
    &&& forall|j: int| 0 <= j < i ==> tabs[j].id != id
}

/// The position of the first tab with id `id` (meaningful when there is one).
pub open spec fn tab_position(tabs: Seq<Tab>, id: TabId) -> int {
    choose|i: int| first_tab_with(tabs, id, i)
}

/// Whether some tab has id `id`.
pub open spec fn has_tab(tabs: Seq<Tab>, id: TabId) -> bool {
    exists|i: int| 0 <= i < tabs.len() && tabs[i].id == id
}

/// The state of the terminal window: its tabs, the one shown, and the shell
/// that new terminals run.
#[derive(Debug, PartialEq, Eq)]
pub struct AppState {
    pub tabs: Vec<Tab>,
    pub active_tab: usize,
    pub shell: String,
}

impl Clone for AppState {
    fn clone(&self) -> (res: Self)
        ensures
            res.tabs@ == self.tabs@,
            res.active_tab == self.active_tab,
            res.shell == self.shell,
    {
        let tabs = self.tabs.clone();
        assert(tabs@ =~= self.tabs@);
        AppState { tabs, active_tab: self.active_tab, shell: self.shell.clone() }
    }
}

impl AppState {
    /// There is a tab, the shown tab exists, and every tab is well formed.
    pub open spec fn wf(&self) -> bool {
        &&& self.tabs.len() >= 1
        &&& self.active_tab < self.tabs.len()
        &&& forall|i: int| 0 <= i < self.tabs.len() ==> (#[trigger] self.tabs[i]).wf()
    }

    /// A window with one tab of one panel, showing that tab.
    pub fn new(shell: String, id: TabId, panel: PanelId, terminal: TerminalKey) -> (r: AppState)
        ensures
            r.tabs.len() == 1,
            r.tabs[0].is_new_tab(0, id, panel, terminal),
            r.active_tab == 0,
            r.shell == shell,
            r.wf(),
    {
        let tab = Tab::new(0, id, panel, terminal);
        AppState { tabs: vec![tab], active_tab: 0, shell }
    }

    /// The tab that is shown, if the index names one.
    pub fn active_tab(&self) -> (r: Option<&Tab>)
        ensures
            r == if self.active_tab < self.tabs.len() {
                Some(&self.tabs[self.active_tab as int])
            } else {
                None::<&Tab>
            },
    {
        if self.active_tab < self.tabs.len() {
            Some(&self.tabs[self.active_tab])
        } else {
            None
        }
    }


    /// The tab that is shown, for changing it, if the index names one.
    pub fn active_tab_mut(&mut self) -> (r: Option<&mut Tab>)
        ensures
            r is Some <==> old(self).active_tab < old(self).tabs.len(),
            r is Some ==> *r->0 == old(self).tabs[old(self).active_tab as int],
            r is Some ==> final(self).tabs@ == old(self).tabs@.update(
                old(self).active_tab as int,
                *final(r->0),
            ),
            r is None ==> final(self).tabs@ == old(self).tabs@,
            final(self).active_tab == old(self).active_tab,
            final(self).shell == old(self).shell,
    {
        if self.active_tab < self.tabs.len() {
            Some(&mut self.tabs[self.active_tab])
        } else {
            None
        }
    }

    /// The terminal of the focused panel of the shown tab, if any: the one
    /// whose working directory new terminals start in.
    pub fn active_terminal(&self) -> (r: Option<TerminalKey>)
        ensures
            r == if self.active_tab < self.tabs.len() {
                self.tabs[self.active_tab as int].panels.terminal_of(
                    self.tabs[self.active_tab as int].active_panel,
                )
            } else {
                None
            },
            self.wf() ==> r is Some,
            self.can_split() <==> (r is Some || self.active_tab >= self.tabs.len()),
    {
        proof {
            if self.active_tab < self.tabs.len() {
                let t = self.tabs[self.active_tab as int];
                lemma_terminal_of_contains(t.panels, t.active_panel);
            }
        }
        match self.active_tab() {
            Some(tab) => tab.panels.handle(tab.active_panel),
            None => None,
        }
    }

    /// Opens a tab of one panel at the end of the list and shows it.
    pub fn new_tab(&mut self, id: TabId, panel: PanelId, terminal: TerminalKey)
        requires
            old(self).tabs.len() < usize::MAX,
        ensures
            final(self).tabs.len() == old(self).tabs.len() + 1,
            final(self).tabs@.drop_last() == old(self).tabs@,
            final(self).tabs@.last().is_new_tab(old(self).tabs.len() as nat, id, panel, terminal),
            final(self).active_tab == old(self).tabs.len(),
            final(self).shell == old(self).shell,
            old(self).wf() ==> final(self).wf(),
    {
        let index = self.tabs.len();
        let tab = Tab::new(index, id, panel, terminal);
        self.tabs.push(tab);
        self.active_tab = self.tabs.len() - 1;
        assert(self.tabs@.drop_last() =~= old(self).tabs@);
    }

    /// Closes the shown tab unless it is the only one; the tab that took its
    /// place is shown, or the last tab when it was the last.
    pub fn close_active_tab(&mut self)
        requires
            old(self).tabs.len() > 1 ==> old(self).active_tab < old(self).tabs.len(),
        ensures
            old(self).tabs.len() <= 1 ==> *final(self) == *old(self),
            old(self).tabs.len() > 1 ==> {
                &&& final(self).tabs@ == old(self).tabs@.remove(old(self).active_tab as int)
                &&& final(self).active_tab == if old(self).active_tab + 1 == old(self).tabs.len() {
                    old(self).active_tab - 1
                } else {
                    old(self).active_tab as int
                }
                &&& final(self).shell == old(self).shell
            },
            old(self).wf() ==> final(self).wf(),
    {
        if self.tabs.len() <= 1 {
            return;
        }
        self.tabs.remove(self.active_tab);
        if self.active_tab >= self.tabs.len() {
            self.active_tab = self.tabs.len() - 1;
        }
        assert forall|i: int| 0 <= i < self.tabs.len() && old(self).wf() implies (#[trigger] self.tabs[i]).wf() by {
            if i < old(self).active_tab {
                assert(self.tabs[i] == old(self).tabs[i]);
            } else {
                assert(self.tabs[i] == old(self).tabs[i + 1]);
            }
        }
    }

    /// Shows the next tab, the first after the last.
    pub fn next_tab(&mut self)
        requires
            old(self).tabs.len() > 0 ==> old(self).active_tab < usize::MAX,
        ensures
            final(self).tabs == old(self).tabs,
            final(self).shell == old(self).shell,
            final(self).active_tab == if old(self).tabs.len() == 0 {
                old(self).active_tab as nat
            } else {
                next_index(old(self).active_tab as nat, old(self).tabs.len() as nat)
            },
            old(self).wf() ==> final(self).wf(),
    {
        if self.tabs.len() == 0 {
            return;
        }
        self.active_tab = (self.active_tab + 1) % self.tabs.len();
    }

    /// Shows the previous tab, the last before the first.
    pub fn prev_tab(&mut self)
        ensures
            final(self).tabs == old(self).tabs,
            final(self).shell == old(self).shell,
            final(self).active_tab == if old(self).tabs.len() == 0 {
                old(self).active_tab as nat
            } else {
                prev_index(old(self).active_tab as nat, old(self).tabs.len() as nat)
            },
            old(self).wf() ==> final(self).wf(),
    {
        if self.tabs.len() == 0 {
            return;
        }
        self.active_tab = match self.active_tab.checked_sub(1) {
            Some(i) => i,
            None => self.tabs.len() - 1,
        };
    }

    /// The shown tab can be split: when it exists, its focused panel is in
    /// its layout.
    pub open spec fn can_split(&self) -> bool {
        self.active_tab < self.tabs.len() ==> self.tabs[self.active_tab as int].panels.leaf_seq().contains(
            self.tabs[self.active_tab as int].active_panel,
        )
    }

    /// `panel` is not yet a panel of the shown tab.
    pub open spec fn is_fresh_panel(&self, panel: PanelId) -> bool {
        self.active_tab < self.tabs.len() ==> !self.tabs[self.active_tab as int].panels.leaf_seq().contains(
            panel,
        )
    }

    /// The tabs after the focused panel of the shown tab is split.
    pub open spec fn split_tabs(
        &self,
        horizontal: bool,
        new_panel: PanelId,
        new_terminal: TerminalKey,
    ) -> Seq<Tab> {
        if self.active_tab < self.tabs.len() {
            self.tabs@.update(
                self.active_tab as int,
                self.tabs[self.active_tab as int].split(horizontal, new_panel, new_terminal),
            )
        } else {
            self.tabs@
        }
    }

    fn split_active(&mut self, horizontal: bool, new_panel: PanelId, new_terminal: TerminalKey)
        requires
            old(self).can_split(),
        ensures
            final(self).tabs@ == old(self).split_tabs(horizontal, new_panel, new_terminal),
            final(self).active_tab == old(self).active_tab,
            final(self).shell == old(self).shell,
            old(self).active_tab < old(self).tabs.len() ==> ({
                let t = old(self).tabs[old(self).active_tab as int];
                final(self).tabs[old(self).active_tab as int].panels.leaf_seq() == subst(
                    t.panels.leaf_seq(),
                    t.active_panel,
                    seq![t.active_panel, new_panel],
                )
            }),
            old(self).active_tab < old(self).tabs.len() ==> ({
                let t = old(self).tabs[old(self).active_tab as int];
                let l = t.panels.leaf_seq();
                forall|k: int|
                    #![trigger l[k]]
                    0 <= k < l.len() && l[k] == t.active_panel && l.no_duplicates() ==> final(
                        self).tabs[old(self).active_tab as int].panels.leaf_seq() == l.take(k)
                        + seq![t.active_panel, new_panel] + l.skip(k + 1)
            }),
            old(self).wf() && old(self).is_fresh_panel(new_panel) ==> final(self).wf(),
    {
        let a = self.active_tab;
        if a < self.tabs.len() {
            let ghost t = self.tabs[a as int];
            let tab = &mut self.tabs[a];
            let active = tab.active_panel;
            let current = tab.panels.handle(active).unwrap();
            let leaf = Box::new(PanelNode::Leaf(active, current));
            let fresh = Box::new(PanelNode::Leaf(new_panel, new_terminal));
            assert((*leaf).leaf_seq() == seq![active]);
            assert((*fresh).leaf_seq() == seq![new_panel]);
            let split = if horizontal {
                PanelNode::Horizontal(leaf, fresh)
            } else {
                PanelNode::Vertical(leaf, fresh)
            };
            assert(split.leaf_seq() =~= seq![active, new_panel]);
            tab.panels = tab.panels.clone().replace_leaf(active, split);
            tab.active_panel = new_panel;
            proof {
                let l = t.panels.leaf_seq();
                let r = seq![active, new_panel];
                assert forall|k: int|
                    0 <= k < l.len() && l[k] == active && l.no_duplicates() implies subst(
                        l,
                        active,
                        r,
                    ) == l.take(k) + r + l.skip(k + 1) by {
                    lemma_subst_at(l, active, r, k);
                }
                assert(r[1] == new_panel);
                lemma_subst_contains(l, active, r, new_panel);
                if old(self).wf() && old(self).is_fresh_panel(new_panel) {
                    assert(t.wf());
                    assert(active != new_panel);
                    assert forall|y: PanelId| r.contains(y) && y != active implies !l.contains(y) by {
                        let k = choose|k: int| 0 <= k < r.len() && r[k] == y;
                        assert(k == 1);
                    }
                    assert(r.no_duplicates());
                    lemma_subst_no_duplicates(l, active, r);
                    assert forall|i: int| 0 <= i < self.tabs.len() implies (#[trigger] self.tabs[i]).wf() by {
                        if i != a {
                            assert(self.tabs[i] == old(self).tabs[i]);
                        }
                    }
                }
            }
        }
    }

    /// Splits the focused panel of the shown tab into itself (left) and the
    /// new panel `(new_panel, new_terminal)` (right), and focuses the new one.
    pub fn split_horizontal(&mut self, new_panel: PanelId, new_terminal: TerminalKey)
        requires
            old(self).can_split(),
        ensures
            final(self).tabs@ == old(self).split_tabs(true, new_panel, new_terminal),
            final(self).active_tab == old(self).active_tab,
            final(self).shell == old(self).shell,
            old(self).active_tab < old(self).tabs.len() ==> ({
                let t = old(self).tabs[old(self).active_tab as int];
                final(self).tabs[old(self).active_tab as int].panels.leaf_seq() == subst(
                    t.panels.leaf_seq(),
                    t.active_panel,
                    seq![t.active_panel, new_panel],
                )
            }),
            old(self).active_tab < old(self).tabs.len() ==> ({
                let t = old(self).tabs[old(self).active_tab as int];
                let l = t.panels.leaf_seq();
                forall|k: int|
                    #![trigger l[k]]
                    0 <= k < l.len() && l[k] == t.active_panel && l.no_duplicates() ==> final(
                        self).tabs[old(self).active_tab as int].panels.leaf_seq() == l.take(k)
                        + seq![t.active_panel, new_panel] + l.skip(k + 1)
            }),
            old(self).wf() && old(self).is_fresh_panel(new_panel) ==> final(self).wf(),
    {
        self.split_active(true, new_panel, new_terminal);
    }

    /// Splits the focused panel of the shown tab into itself (top) and the
    /// new panel `(new_panel, new_terminal)` (bottom), and focuses the new one.
    pub fn split_vertical(&mut self, new_panel: PanelId, new_terminal: TerminalKey)
        requires
            old(self).can_split(),
        ensures
            final(self).tabs@ == old(self).split_tabs(false, new_panel, new_terminal),
            final(self).active_tab == old(self).active_tab,
            final(self).shell == old(self).shell,
            old(self).active_tab < old(self).tabs.len() ==> ({
                let t = old(self).tabs[old(self).active_tab as int];
                final(self).tabs[old(self).active_tab as int].panels.leaf_seq() == subst(
                    t.panels.leaf_seq(),
                    t.active_panel,
                    seq![t.active_panel, new_panel],
                )
            }),
            old(self).active_tab < old(self).tabs.len() ==> ({
                let t = old(self).tabs[old(self).active_tab as int];
                let l = t.panels.leaf_seq();
                forall|k: int|
                    #![trigger l[k]]
                    0 <= k < l.len() && l[k] == t.active_panel && l.no_duplicates() ==> final(
                        self).tabs[old(self).active_tab as int].panels.leaf_seq() == l.take(k)
                        + seq![t.active_panel, new_panel] + l.skip(k + 1)
            }),
            old(self).wf() && old(self).is_fresh_panel(new_panel) ==> final(self).wf(),
    {
        self.split_active(false, new_panel, new_terminal);
    }

    /// The tabs after the focused panel of the shown tab is closed.
    pub open spec fn closed_panel_tabs(&self) -> Seq<Tab> {
        if self.active_tab < self.tabs.len() {
            let t = self.tabs[self.active_tab as int];
            match t.panels.removed(t.active_panel) {
                Some(root) => self.tabs@.update(
                    self.active_tab as int,
                    t.with_panels(root, root.leaf_seq().last()),
                ),
                None => self.tabs@,
            }
        } else {
            self.tabs@
        }
    }

    /// The panel that takes focus when the focused panel of the shown tab is
    /// closed; `None` when nothing is closed.
    pub open spec fn panel_closed_into(&self) -> Option<PanelId> {
        if self.active_tab < self.tabs.len() {
            let t = self.tabs[self.active_tab as int];
            match t.panels.removed(t.active_panel) {
                Some(root) => Some(root.leaf_seq().last()),
                None => None,
            }
        } else {
            None
        }
    }

    /// Closes the focused panel of the shown tab, unless it is the tab's only
    /// panel: its sibling takes the place of their split, and the last panel
    /// of the tab takes focus. Returns the panel that took focus.
    pub fn close_active_panel(&mut self) -> (r: Option<PanelId>)
        ensures
            final(self).tabs@ == old(self).closed_panel_tabs(),
            final(self).active_tab == old(self).active_tab,
            final(self).shell == old(self).shell,
            r == old(self).panel_closed_into(),
            r matches Some(p) ==> p == final(self).tabs[old(self).active_tab as int].active_panel,
            r is None ==> final(self).tabs@ == old(self).tabs@,
            r is Some ==> ({
                let t = old(self).tabs[old(self).active_tab as int];
                let nt = final(self).tabs[old(self).active_tab as int];
                &&& old(self).active_tab < old(self).tabs.len()
                &&& nt.panels.leaf_seq() == remove_first(t.panels.leaf_seq(), t.active_panel)
                &&& nt.active_panel == nt.panels.leaf_seq().last()
                &&& t.wf() ==> !nt.panels.leaf_seq().contains(t.active_panel)
            }),
            old(self).wf() ==> final(self).wf(),
    {
        let a = self.active_tab;
        if a < self.tabs.len() {
            let ghost t = self.tabs[a as int];
            let tab = &mut self.tabs[a];
            let active = tab.active_panel;
            match tab.panels.clone().remove_leaf(active) {
                Some(new_root) => {
                    let leaves = new_root.leaves();
                    let ghost l = new_root.leaf_seq();
                    tab.panels = new_root;
                    let panel = leaves[leaves.len() - 1];
                    tab.active_panel = panel;
                    proof {
                        assert(l.contains(l.last()));
                        lemma_remove_first_contains(t.panels.leaf_seq(), active, active);
                        if old(self).wf() {
                            assert(t.wf());
                            lemma_remove_first_no_duplicates(t.panels.leaf_seq(), active);
                            assert forall|i: int| 0 <= i < self.tabs.len() implies (#[trigger] self.tabs[i]).wf() by {
                                if i != a {
                                    assert(self.tabs[i] == old(self).tabs[i]);
                                }
                            }
                        }
                    }
                    Some(panel)
                },
                None => {
                    assert(self.tabs@ =~= old(self).tabs@);
                    None
                },
            }
        } else {
            None
        }
    }


    /// The tabs after the shown tab is reduced to its focused panel.
    pub open spec fn alone_tabs(&self) -> Seq<Tab> {
        if self.active_tab < self.tabs.len() {
            let t = self.tabs[self.active_tab as int];
            match t.panels.terminal_of(t.active_panel) {
                Some(term) => self.tabs@.update(
                    self.active_tab as int,
                    t.with_panels(PanelNode::Leaf(t.active_panel, term), t.active_panel),
                ),
                None => self.tabs@,
            }
        } else {
            self.tabs@
        }
    }

    /// Closes every panel of the shown tab but the focused one, which then
    /// fills the tab alone.
    pub fn close_all_except_active(&mut self)
        ensures
            final(self).tabs@ == old(self).alone_tabs(),
            final(self).active_tab == old(self).active_tab,
            final(self).shell == old(self).shell,
            old(self).wf() ==> final(self).wf(),
    {
        let a = self.active_tab;
        if a < self.tabs.len() {
            let tab = &mut self.tabs[a];
            let active = tab.active_panel;
            match tab.panels.handle(active) {
                Some(term) => {
                    tab.panels = PanelNode::Leaf(active, term);
                    proof {
                        lemma_single_contains(active, active);
                    }
                    assert(self.tabs[a as int].panels.leaf_seq().no_duplicates()) by {
                        assert(self.tabs[a as int].panels.leaf_seq() =~= seq![active]);
                    }
                    assert forall|i: int| 0 <= i < self.tabs.len() && old(self).wf() implies (#[trigger] self.tabs[i]).wf() by {
                        if i != a {
                            assert(self.tabs[i] == old(self).tabs[i]);
                        }
                    }
                },
                None => {},
            }
        }
    }

    /// The tabs after focus moves from the focused panel of the shown tab in
    /// direction `dir`.
    pub open spec fn navigated_tabs(&self, dir: NavDirection) -> Seq<Tab> {
        if self.active_tab < self.tabs.len() {
            let t = self.tabs[self.active_tab as int];
            match t.panels.neighbour(t.active_panel, dir) {
                Some(n) => self.tabs@.update(self.active_tab as int, t.with_panels(t.panels, n)),
                None => self.tabs@,
            }
        } else {
            self.tabs@
        }
    }

    /// Moves focus in the shown tab to the neighbour of the focused panel in
    /// direction `dir`, when there is one.
    pub fn navigate(&mut self, dir: NavDirection)
        ensures
            final(self).tabs@ == old(self).navigated_tabs(dir),
            final(self).active_tab == old(self).active_tab,
            final(self).shell == old(self).shell,
            old(self).wf() ==> final(self).wf(),
    {
        let a = self.active_tab;
        if a < self.tabs.len() {
            let tab = &mut self.tabs[a];
            match tab.panels.find_neighbour(tab.active_panel, dir) {
                Some(neighbour) => {
                    tab.active_panel = neighbour;
                    assert forall|i: int| 0 <= i < self.tabs.len() && old(self).wf() implies (#[trigger] self.tabs[i]).wf() by {
                        if i != a {
                            assert(self.tabs[i] == old(self).tabs[i]);
                        }
                    }
                },
                None => {},
            }
        }
    }

    /// The position of the first tab with id `id`, if there is one.
    pub fn position_of(&self, id: TabId) -> (r: Option<usize>)
        ensures
            r is None <==> !has_tab(self.tabs@, id),
            r matches Some(i) ==> i == tab_position(self.tabs@, id) && first_tab_with(
                self.tabs@,
                id,
                i as int,
            ),
    {
        let mut i: usize = 0;
        while i < self.tabs.len()
            invariant
                i <= self.tabs.len(),
                forall|j: int| 0 <= j < i ==> self.tabs[j].id != id,
            decreases self.tabs.len() - i,
        {
            if self.tabs[i].id == id {
                proof { lemma_tab_position(self.tabs@, id, i as int); }
                return Some(i);
            }
            i += 1;
        }
        None
    }

    /// Shows the first tab with id `id`, if there is one.
    pub fn select_tab(&mut self, id: TabId)
        ensures
            final(self).tabs == old(self).tabs,
            final(self).shell == old(self).shell,
            final(self).active_tab == if has_tab(old(self).tabs@, id) {
                tab_position(old(self).tabs@, id)
            } else {
                old(self).active_tab as int
            },
            old(self).wf() ==> final(self).wf(),
    {
        if let Some(idx) = self.position_of(id) {
            self.active_tab = idx;
        }
    }

    /// Closes the first tab with id `id`, unless it is the only tab; the
    /// shown position stays, moving to the last tab when it fell off the end.
    /// Returns the focused panel of the tab shown afterwards when a tab was
    /// closed.
    pub fn close_tab(&mut self, id: TabId) -> (r: Option<PanelId>)
        ensures
            !(has_tab(old(self).tabs@, id) && old(self).tabs.len() > 1) ==> *final(self) == *old(
                self,
            ) && r is None,
            has_tab(old(self).tabs@, id) && old(self).tabs.len() > 1 ==> {
                &&& final(self).tabs@ == old(self).tabs@.remove(tab_position(old(self).tabs@, id))
                &&& final(self).active_tab == if old(self).active_tab >= final(self).tabs.len() {
                    final(self).tabs.len() - 1
                } else {
                    old(self).active_tab as int
                }
                &&& final(self).shell == old(self).shell
                &&& r == Some(final(self).tabs[final(self).active_tab as int].active_panel)
            },
            old(self).wf() ==> final(self).wf(),
    {
        match self.position_of(id) {
            Some(idx) => {
                if self.tabs.len() > 1 {
                    self.tabs.remove(idx);
                    if self.active_tab >= self.tabs.len() {
                        self.active_tab = self.tabs.len() - 1;
                    }
                    assert forall|i: int| 0 <= i < self.tabs.len() && old(self).wf() implies (#[trigger] self.tabs[i]).wf() by {
                        if i < idx {
                            assert(self.tabs[i] == old(self).tabs[i]);
                        } else {
                            assert(self.tabs[i] == old(self).tabs[i + 1]);
                        }
                    }
                    Some(self.tabs[self.active_tab].active_panel)
                } else {
                    None
                }
            },
            None => None,
        }
    }

    /// Gives the first tab with id `id` the title `title`, unless `title` is
    /// empty.
    pub fn set_tab_title(&mut self, id: TabId, title: String)
        ensures
            final(self).active_tab == old(self).active_tab,
            final(self).shell == old(self).shell,
            final(self).tabs@ == if title@.len() > 0 && has_tab(old(self).tabs@, id) {
                let i = tab_position(old(self).tabs@, id);
                let t = old(self).tabs[i];
                old(self).tabs@.update(
                    i,
                    Tab {
                        id: t.id,
                        title,
                        panels: t.panels,
                        active_panel: t.active_panel,
                        outputting: t.outputting,
                        last_output: t.last_output,
                    },
                )
            } else {
                old(self).tabs@
            },
            old(self).wf() ==> final(self).wf(),
    {
        if title.as_str().is_empty() {
            return;
        }
        if let Some(idx) = self.position_of(id) {
            self.tabs[idx].title = title;
            assert forall|i: int| 0 <= i < self.tabs.len() && old(self).wf() implies (#[trigger] self.tabs[i]).wf() by {
                if i != idx {
                    assert(self.tabs[i] == old(self).tabs[i]);
                }
            }
        }
    }

    /// Notes output from a terminal of the tab with id `id` at time `now`:
    /// every tab with that id records the time, and the first one is marked
    /// as producing output.
    pub fn record_output(&mut self, id: TabId, now: u64)
        ensures
            final(self).active_tab == old(self).active_tab,
            final(self).shell == old(self).shell,
            final(self).tabs.len() == old(self).tabs.len(),
            forall|i: int|
                0 <= i < old(self).tabs.len() ==> (#[trigger] final(self).tabs[i]) == old(
                    self,
                ).tabs[i].with_activity(
                    old(self).tabs[i].outputting || (has_tab(old(self).tabs@, id) && i
                        == tab_position(old(self).tabs@, id)),
                    if old(self).tabs[i].id == id {
                        Some(now)
                    } else {
                        old(self).tabs[i].last_output
                    },
                ),
            old(self).wf() ==> final(self).wf(),
    {
        let first = self.position_of(id);
        let mut i: usize = 0;
        while i < self.tabs.len()
            invariant
                i <= self.tabs.len(),
                self.tabs.len() == old(self).tabs.len(),
                self.active_tab == old(self).active_tab,
                self.shell == old(self).shell,
                first is None <==> !has_tab(old(self).tabs@, id),
                first matches Some(k) ==> k == tab_position(old(self).tabs@, id),
                forall|j: int|
                    0 <= j < i ==> (#[trigger] self.tabs[j]) == old(self).tabs[j].with_activity(
                        old(self).tabs[j].outputting || (has_tab(old(self).tabs@, id) && j
                            == tab_position(old(self).tabs@, id)),
                        if old(self).tabs[j].id == id {
                            Some(now)
                        } else {
                            old(self).tabs[j].last_output
                        },
                    ),
                forall|j: int| i <= j < self.tabs.len() ==> (#[trigger] self.tabs[j]) == old(self).tabs[j],
            decreases self.tabs.len() - i,
        {
            let is_first = match first {
                Some(k) => k == i,
                None => false,
            };
            let tab = &mut self.tabs[i];
            if is_first {
                tab.outputting = true;
            }
            if tab.id == id {
                tab.last_output = Some(now);
            }
            i += 1;
        }
    }

    /// Whether some tab would lose its output mark in `sweep_idle(now, idle)`.
    pub fn any_idle(&self, now: u64, idle: u64) -> (r: bool)
        ensures
            r == exists|i: int| 0 <= i < self.tabs.len() && (#[trigger] self.tabs[i]).is_idle(now, idle),
    {
        let mut i: usize = 0;
        while i < self.tabs.len()
            invariant
                i <= self.tabs.len(),
                forall|j: int| 0 <= j < i ==> !(#[trigger] self.tabs[j]).is_idle(now, idle),
            decreases self.tabs.len() - i,
        {
            let tab = &self.tabs[i];
            let idle_now = tab.outputting && match tab.last_output {
                Some(then) => {
                    let since = if now >= then {
                        now - then
                    } else {
                        0
                    };
                    since > idle
                },
                None => true,
            };
            if idle_now {
                assert(self.tabs[i as int].is_idle(now, idle));
                return true;
            }
            i += 1;
        }
        false
    }

    /// Clears the output mark of every tab that has produced no output for
    /// longer than `idle` milliseconds at time `now`.
    pub fn sweep_idle(&mut self, now: u64, idle: u64)
        ensures
            final(self).active_tab == old(self).active_tab,
            final(self).shell == old(self).shell,
            final(self).tabs.len() == old(self).tabs.len(),
            forall|i: int|
                0 <= i < old(self).tabs.len() ==> (#[trigger] final(self).tabs[i]) == old(
                    self,
                ).tabs[i].with_activity(
                    old(self).tabs[i].outputting && !old(self).tabs[i].is_idle(now, idle),
                    old(self).tabs[i].last_output,
                ),
            old(self).wf() ==> final(self).wf(),
    {
        let mut i: usize = 0;
        while i < self.tabs.len()
            invariant
                i <= self.tabs.len(),
                self.tabs.len() == old(self).tabs.len(),
                self.active_tab == old(self).active_tab,
                self.shell == old(self).shell,
                forall|j: int|
                    0 <= j < i ==> (#[trigger] self.tabs[j]) == old(self).tabs[j].with_activity(
                        old(self).tabs[j].outputting && !old(self).tabs[j].is_idle(now, idle),
                        old(self).tabs[j].last_output,
                    ),
                forall|j: int| i <= j < self.tabs.len() ==> (#[trigger] self.tabs[j]) == old(self).tabs[j],
            decreases self.tabs.len() - i,
        {
            let tab = &mut self.tabs[i];
            let idle_now = tab.outputting && match tab.last_output {
                Some(then) => {
                    let since = if now >= then {
                        now - then
                    } else {
                        0
                    };
                    since > idle
                },
                None => true,
            };
            if idle_now {
                tab.outputting = false;
            }
            i += 1;
        }
    }

    /// For each tab in order: its id, its title, and whether it is shown.
    pub fn tab_entries(&self) -> (r: Vec<(TabId, String, bool)>)
        ensures
            r.len() == self.tabs.len(),
            forall|i: int|
                0 <= i < r.len() ==> {
                    &&& (#[trigger] r[i]).0 == self.tabs[i].id
                    &&& r[i].1 == self.tabs[i].title
                    &&& r[i].2 == (i == self.active_tab)
                },
    {
        let mut r: Vec<(TabId, String, bool)> = Vec::new();
        let mut i: usize = 0;
        while i < self.tabs.len()
            invariant
                i <= self.tabs.len(),
                r.len() == i,
                forall|k: int|
                    0 <= k < i ==> {
                        &&& (#[trigger] r[k]).0 == self.tabs[k].id
                        &&& r[k].1 == self.tabs[k].title
                        &&& r[k].2 == (k == self.active_tab)
                    },
            decreases self.tabs.len() - i,
        {
            let tab = &self.tabs[i];
            r.push((tab.id, tab.title.clone(), i == self.active_tab));
            i += 1;
        }
        r
    }
}


/// The operations on the shown tab change that tab only: every other tab,
/// and the number of tabs, stay as they are. When there is no shown tab,
/// nothing changes.
pub proof fn lemma_only_shown_tab_changes(
    s: AppState,
    dir: NavDirection,
    horizontal: bool,
    new_panel: PanelId,
    new_terminal: TerminalKey,
    i: int,
)
    requires
        0 <= i < s.tabs.len(),
        i != s.active_tab,
    ensures
        s.navigated_tabs(dir).len() == s.tabs.len(),
        s.navigated_tabs(dir)[i] == s.tabs[i],
        s.alone_tabs().len() == s.tabs.len(),
        s.alone_tabs()[i] == s.tabs[i],
        s.split_tabs(horizontal, new_panel, new_terminal).len() == s.tabs.len(),
        s.split_tabs(horizontal, new_panel, new_terminal)[i] == s.tabs[i],
        s.closed_panel_tabs().len() == s.tabs.len(),
        s.closed_panel_tabs()[i] == s.tabs[i],
        s.active_tab >= s.tabs.len() ==> {
            &&& s.navigated_tabs(dir) == s.tabs@
            &&& s.alone_tabs() == s.tabs@
            &&& s.split_tabs(horizontal, new_panel, new_terminal) == s.tabs@
            &&& s.closed_panel_tabs() == s.tabs@
        },
{
}

/// Moving focus in the shown tab keeps its layout, id, title and output
/// state, and puts focus on the neighbour of the focused panel when there is
/// one (a panel of the layout, another than the focused one when the tab is
/// well formed); otherwise focus stays.
pub proof fn lemma_navigate_shown_tab(s: AppState, dir: NavDirection)
    requires
        s.active_tab < s.tabs.len(),
    ensures
        ({
            let t = s.tabs[s.active_tab as int];
            let nt = s.navigated_tabs(dir)[s.active_tab as int];
            &&& nt.panels == t.panels
            &&& nt.id == t.id
            &&& nt.title == t.title
            &&& nt.outputting == t.outputting
            &&& nt.last_output == t.last_output
            &&& nt.active_panel == match t.panels.neighbour(t.active_panel, dir) {
                Some(n) => n,
                None => t.active_panel,
            }
            &&& t.wf() ==> nt.wf()
            &&& t.wf() && t.panels.neighbour(t.active_panel, dir) is Some ==> nt.active_panel
                != t.active_panel
        }),
{
    let t = s.tabs[s.active_tab as int];
    lemma_neighbour_in_layout(t.panels, t.active_panel, dir);
}

/// Keeping only the focused panel of a well-formed shown tab leaves that tab
/// one leaf: the focused panel, still showing its terminal, still focused;
/// its id, title and output state stay.
pub proof fn lemma_alone_shown_tab(s: AppState)
    requires
        s.wf(),
    ensures
        ({
            let t = s.tabs[s.active_tab as int];
            let nt = s.alone_tabs()[s.active_tab as int];
            &&& t.panels.terminal_of(t.active_panel) is Some
            &&& nt.panels == PanelNode::Leaf(
                t.active_panel,
                t.panels.terminal_of(t.active_panel)->0,
            )
            &&& nt.panels.leaf_seq() == seq![t.active_panel]
            &&& nt.active_panel == t.active_panel
            &&& nt.id == t.id
            &&& nt.title == t.title
            &&& nt.outputting == t.outputting
            &&& nt.last_output == t.last_output
        }),
{
    let t = s.tabs[s.active_tab as int];
    assert(t.wf());
    lemma_terminal_of_contains(t.panels, t.active_panel);
}

/// Splitting the shown tab keeps its id, title and output state, focuses the
/// new panel, and leaves every old panel in the layout next to the new one.
pub proof fn lemma_split_shown_tab(
    s: AppState,
    horizontal: bool,
    new_panel: PanelId,
    new_terminal: TerminalKey,
)
    requires
        s.active_tab < s.tabs.len(),
        s.can_split(),
    ensures
        ({
            let t = s.tabs[s.active_tab as int];
            let nt = s.split_tabs(horizontal, new_panel, new_terminal)[s.active_tab as int];
            &&& nt.id == t.id
            &&& nt.title == t.title
            &&& nt.outputting == t.outputting
            &&& nt.last_output == t.last_output
            &&& nt.active_panel == new_panel
            &&& nt.panels.leaf_seq().contains(new_panel)
            &&& nt.panels.leaf_seq().contains(t.active_panel)
            &&& forall|p: PanelId| #[trigger]
                t.panels.leaf_seq().contains(p) ==> nt.panels.leaf_seq().contains(p)
        }),
{
    let t = s.tabs[s.active_tab as int];
    let a = t.active_panel;
    lemma_terminal_of_contains(t.panels, a);
    let r = split_node(horizontal, a, t.panels.terminal_of(a).unwrap(), new_panel, new_terminal);
    assert(r.leaf_seq() =~= seq![a, new_panel]) by {
        assert(PanelNode::Leaf(a, t.panels.terminal_of(a).unwrap()).leaf_seq() == seq![a]);
        assert(PanelNode::Leaf(new_panel, new_terminal).leaf_seq() == seq![new_panel]);
    }
    lemma_replaced_leaves(t.panels, a, r);
    assert(r.leaf_seq()[0] == a && r.leaf_seq()[1] == new_panel);
    lemma_subst_contains(t.panels.leaf_seq(), a, r.leaf_seq(), new_panel);
    lemma_subst_contains(t.panels.leaf_seq(), a, r.leaf_seq(), a);
    assert forall|p: PanelId| #[trigger]
        t.panels.leaf_seq().contains(p) implies subst(t.panels.leaf_seq(), a, r.leaf_seq()).contains(
        p,
    ) by {
        lemma_subst_contains(t.panels.leaf_seq(), a, r.leaf_seq(), p);
    }
}

/// Moving to the next tab goes one to the right, and from the last tab to
/// the first; moving to the previous tab goes one to the left, and from the
/// first tab to the last.
pub proof fn lemma_tab_cycle(i: nat, len: nat)
    requires
        i < len,
    ensures
        i + 1 < len ==> next_index(i, len) == i + 1,
        i + 1 == len ==> next_index(i, len) == 0,
        i > 0 ==> prev_index(i, len) == i - 1,
        i == 0 ==> prev_index(i, len) == len - 1,
{
    lemma_prev_undoes_next(i, len);
    if i + 1 == len {
        assert(len % len == 0) by (nonlinear_arith)
            requires
                len > 0,
        ;
    } else {
        assert((i + 1) % len == i + 1) by (nonlinear_arith)
            requires
                i + 1 < len,
        ;
    }
}

/// When some tab has the id, its position is that of the first such tab.
pub proof fn lemma_tab_position_is_first(tabs: Seq<Tab>, id: TabId)
    requires
        has_tab(tabs, id),
    ensures
        0 <= tab_position(tabs, id) < tabs.len(),
        tabs[tab_position(tabs, id)].id == id,
        forall|j: int| 0 <= j < tab_position(tabs, id) ==> tabs[j].id != id,
{
    let k = choose|i: int| 0 <= i < tabs.len() && tabs[i].id == id;
    lemma_first_tab_exists(tabs, id, k);
}

/// Below any tab with the id there is a first one.
proof fn lemma_first_tab_exists(tabs: Seq<Tab>, id: TabId, k: int)
    requires
        0 <= k < tabs.len(),
        tabs[k].id == id,
    ensures
        exists|i: int| first_tab_with(tabs, id, i),
    decreases k,
{
    if exists|j: int| 0 <= j < k && tabs[j].id == id {
        let j = choose|j: int| 0 <= j < k && tabs[j].id == id;
        lemma_first_tab_exists(tabs, id, j);
    } else {
        assert(first_tab_with(tabs, id, k));
    }
}

/// A tab that produced output at time `then` keeps its mark for `idle`
/// milliseconds after it and loses it at any later sweep; a tab without the
/// mark is never idle.
pub proof fn lemma_idle_after_timeout(t: Tab, then: u64, now: u64, idle: u64)
    ensures
        !t.outputting ==> !t.is_idle(now, idle),
        t.outputting && t.last_output == Some(then) && then <= now && now - then <= idle
            ==> !t.is_idle(now, idle),
        t.outputting && t.last_output == Some(then) && then <= now && now - then > idle
            ==> t.is_idle(now, idle),
        t.outputting && t.last_output is None ==> t.is_idle(now, idle),
{
}

/// Moving to the previous tab undoes moving to the next one, and the other
/// way round; both stay within the list.
pub proof fn lemma_prev_undoes_next(i: nat, len: nat)
    requires
        i < len,
    ensures
        next_index(i, len) < len,
        prev_index(i, len) < len,
        prev_index(next_index(i, len), len) == i,
        next_index(prev_index(i, len), len) == i,
{
    if i + 1 < len {
        assert((i + 1) % len == i + 1) by (nonlinear_arith)
            requires
                i + 1 < len,
        ;
    } else {
        assert((i + 1) % len == 0) by (nonlinear_arith)
            requires
                i + 1 == len,
        ;
    }
    if i == 0 {
        assert(len % len == 0) by (nonlinear_arith)
            requires
                len > 0,
        ;
    } else {
        assert(i % len == i) by (nonlinear_arith)
            requires
                i < len,
        ;
    }
}

/// Closing the panel that a split has just created and focused gives the
/// tab back the layout it had before the split.
pub proof fn lemma_close_undoes_split(
    tab: Tab,
    horizontal: bool,
    new_panel: PanelId,
    new_terminal: TerminalKey,
)
    requires
        tab.wf(),
        !tab.panels.leaf_seq().contains(new_panel),
    ensures
        tab.split(horizontal, new_panel, new_terminal).active_panel == new_panel,
        tab.split(horizontal, new_panel, new_terminal).panels.removed(new_panel) == Some(
            tab.panels,
        ),
{
    let a = tab.active_panel;
    lemma_terminal_of_contains(tab.panels, a);
    let t = tab.panels.terminal_of(a).unwrap();
    lemma_split_then_remove(tab.panels, horizontal, a, t, new_panel, new_terminal);
}

/// Removing the new leaf of a split of the only leaf of panel `a` restores
/// the layout.
proof fn lemma_split_then_remove(
    node: PanelNode,
    horizontal: bool,
    a: PanelId,
    t: TerminalKey,
    n: PanelId,
    tn: TerminalKey,
)
    requires
        node.leaf_seq().no_duplicates(),
        node.terminal_of(a) == Some(t),
        !node.leaf_seq().contains(n),
    ensures
        node.replaced(a, split_node(horizontal, a, t, n, tn)).removed(n) == Some(node),
    decreases node,
{
    let r = split_node(horizontal, a, t, n, tn);
    lemma_terminal_of_contains(node, a);
    assert(r.leaf_seq() =~= seq![a, n]) by {
        assert(PanelNode::Leaf(a, t).leaf_seq() == seq![a]);
        assert(PanelNode::Leaf(n, tn).leaf_seq() == seq![n]);
    }
    assert(r.leaf_seq()[1] == n);
    match node {
        PanelNode::Leaf(id, _) => {
            lemma_single_contains(a, n);
            lemma_single_contains(id, a);
            assert(a != n);
        },
        PanelNode::Horizontal(x, y) => {
            lemma_concat_no_duplicates(x.leaf_seq(), y.leaf_seq());
            lemma_concat_contains(x.leaf_seq(), y.leaf_seq(), n);
            lemma_concat_contains(x.leaf_seq(), y.leaf_seq(), a);
            lemma_terminal_of_contains(*x, a);
            lemma_terminal_of_contains(*y, a);
            if x.leaf_seq().contains(a) {
                lemma_replaced_absent(*y, a, r);
                lemma_split_then_remove(*x, horizontal, a, t, n, tn);
                lemma_replaced_leaves(*x, a, r);
                lemma_subst_contains(x.leaf_seq(), a, r.leaf_seq(), n);
                lemma_replaced_not_leaf(*x, a, r, n);
            } else {
                lemma_replaced_absent(*x, a, r);
                lemma_split_then_remove(*y, horizontal, a, t, n, tn);
                lemma_replaced_not_leaf(*y, a, r, n);
            }
        },
        PanelNode::Vertical(x, y) => {
            lemma_concat_no_duplicates(x.leaf_seq(), y.leaf_seq());
            lemma_concat_contains(x.leaf_seq(), y.leaf_seq(), n);
            lemma_concat_contains(x.leaf_seq(), y.leaf_seq(), a);
            lemma_terminal_of_contains(*x, a);
            lemma_terminal_of_contains(*y, a);
            if x.leaf_seq().contains(a) {
                lemma_replaced_absent(*y, a, r);
                lemma_split_then_remove(*x, horizontal, a, t, n, tn);
                lemma_replaced_leaves(*x, a, r);
                lemma_subst_contains(x.leaf_seq(), a, r.leaf_seq(), n);
                lemma_replaced_not_leaf(*x, a, r, n);
            } else {
                lemma_replaced_absent(*x, a, r);
                lemma_split_then_remove(*y, horizontal, a, t, n, tn);
                lemma_replaced_not_leaf(*y, a, r, n);
            }
        },
    }
}

/// Replacing a panel by a split never leaves a lone leaf of a panel that
/// was not in the layout.
proof fn lemma_replaced_not_leaf(node: PanelNode, a: PanelId, r: PanelNode, n: PanelId)
    requires
        !(r is Leaf),
        !node.leaf_seq().contains(n),
    ensures
        !node.replaced(a, r).is_leaf_of(n),
{
    if let PanelNode::Leaf(id, _) = node {
        lemma_single_contains(id, n);
    }
}

/// The first tab with a given id is found at one position only.
pub proof fn lemma_tab_position(tabs: Seq<Tab>, id: TabId, i: int)
    requires
        first_tab_with(tabs, id, i),
    ensures
        tab_position(tabs, id) == i,
        has_tab(tabs, id),
{
    let k = tab_position(tabs, id);
    assert(first_tab_with(tabs, id, k));
    if k < i {
        assert(tabs[k].id != id);
    } else if k > i {
        assert(tabs[i].id != id);
    }
}

} // verus!
