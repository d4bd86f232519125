//! The state of the tab menu: the three fixed tabs and the selected one.

use vstd::prelude::*;

verus! {

/// The three tabs of the interface.
#[derive(Debug, Clone, Copy, PartialEq, Eq, Structural)]
pub enum Tab {
    Schema,
    Query,
    SnapShot,
}

/// The tab shown at a given position.
pub open spec fn tab_at(i: int) -> Tab {
    if i == 0 {
        Tab::Schema
    } else if i == 1 {
        Tab::Query
    } else {
        Tab::SnapShot
    }
}

/// The menu's state: the fixed tab list and the selected position.
#[derive(Debug)]
pub struct Menu {
    pub tabs: Vec<Tab>,
    pub selected: usize,
}

impl Menu {
    /// The tabs are the three fixed ones and the selection is valid.
    pub open spec fn wf(&self) -> bool {
        &&& self.tabs@ == seq![Tab::Schema, Tab::Query, Tab::SnapShot]
        &&& self.selected < 3
    }

    /// A menu with the given tab selected; a position past the tabs is not
    /// allowed.
    pub fn new(selected: usize) -> (r: Menu)
        requires
            selected < 3,
        ensures
            r.selected == selected,
            r.wf(),
    {
        let mut tabs: Vec<Tab> = Vec::new();
        tabs.push(Tab::Schema);
        tabs.push(Tab::Query);
        tabs.push(Tab::SnapShot);
        proof {
            assert(tabs@ =~= seq![Tab::Schema, Tab::Query, Tab::SnapShot]);
        }
        Menu { tabs, selected }
    }

    /// Selects the following tab, wrapping at the end.
    pub fn next(&mut self) -> (r: &Tab)
        requires
            old(self).wf(),
        ensures
            final(self).wf(),
            final(self).selected == (old(self).selected + 1) % 3,
            *r == tab_at(final(self).selected as int),
    {
        self.selected = (self.selected + 1) % 3;
        &self.tabs[self.selected]
    }

    /// Selects the preceding tab, wrapping at the start.
    pub fn prev(&mut self) -> (r: &Tab)
        requires
            old(self).wf(),
        ensures
            final(self).wf(),
            final(self).selected == if old(self).selected == 0 {
                2int
            } else {
                old(self).selected - 1
            },
            *r == tab_at(final(self).selected as int),
    {
        self.selected = if self.selected == 0 {
            2
        } else {
            self.selected - 1
        };
        &self.tabs[self.selected]
    }

    /// Selects the tab at the given position; a position past the tabs
    /// leaves the menu unchanged and yields nothing.
    pub fn select(&mut self, select: usize) -> (r: Option<&Tab>)
        requires
            old(self).wf(),
        ensures
            final(self).wf(),
            match r {
                Some(t) => select < 3 && final(self).selected == select && *t == tab_at(
                    select as int,
                ),
                None => 3 <= select && final(self).selected == old(self).selected,
            },
    {
        if 3 <= select {
            return None;
        }
        self.selected = select;
        Some(&self.tabs[self.selected])
    }

    /// The selected tab.
    pub fn get_tab(&self) -> (r: &Tab)
        requires
            self.wf(),
        ensures
            *r == tab_at(self.selected as int),
    {
        &self.tabs[self.selected]
    }
}

} // verus!
