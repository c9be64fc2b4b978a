//! The open map files of an editing session: an ordered list of tabs and
//! an optional current tab.

use crate::map_file::MapFile;
use vstd::prelude::*;

verus! {

/// The open map files, in tab order, and which of them is current.
pub struct Tabs {
    tabs: Vec<MapFile>,
    current_tab: Option<usize>,
}

impl Tabs {
    /// The open files, in tab order.
    pub closed spec fn spec_tabs(&self) -> Seq<MapFile> {
        self.tabs@
    }

    /// The index of the current tab, if one is selected.
    pub closed spec fn spec_current(&self) -> Option<usize> {
        self.current_tab
    }

    /// A selected current tab is always a valid index into the tab list.
    pub closed spec fn wf(&self) -> bool {
        match self.current_tab {
            Some(i) => i < self.tabs@.len(),
            None => true,
        }
    }

    /// The current tab's file, or `None` when no tab is selected.
    pub fn current_tab(&self) -> (r: Option<&MapFile>)
        requires
            self.wf(),
        ensures
            match self.spec_current() {
                Some(i) => r matches Some(f) && *f == self.spec_tabs()[i as int],
                None => r is None,
            },
    {
        match self.current_tab {
            Some(tab) => Some(&self.tabs[tab]),
            None => None,
        }
    }

    /// The index of the current tab, or `None` when no tab is selected.
    pub fn current_tab_idx(&self) -> (r: Option<usize>)
        ensures
            r == self.spec_current(),
    {
        self.current_tab
    }

    /// Selects the tab at `index`; an out-of-range index leaves the
    /// selection unchanged.
    pub fn switch_to_tab(&mut self, index: usize)
        requires
            old(self).wf(),
        ensures
            final(self).wf(),
            final(self).spec_tabs() == old(self).spec_tabs(),
            final(self).spec_current() == if index < old(self).spec_tabs().len() {
                Some(index)
            } else {
                old(self).spec_current()
            },
    {
        if index < self.tabs.len() {
            self.current_tab = Some(index);
        }
    }

    /// Opens a new tab at the end of the list and makes it current.
    pub fn new_tab(&mut self, map_file: MapFile)
        requires
            old(self).wf(),
        ensures
            final(self).wf(),
            final(self).spec_tabs() == old(self).spec_tabs().push(map_file),
            final(self).spec_current() == Some(old(self).spec_tabs().len() as usize),
    {
        self.tabs.push(map_file);
        self.current_tab = Some(self.tabs.len() - 1);
    }

    /// Closes the tab at `index`, which must exist. When the selection
    /// falls past the end of the shortened list it moves to the last tab,
    /// or away entirely when no tab is left.
    pub fn close_tab(&mut self, index: usize)
        requires
            old(self).wf(),
            index < old(self).spec_tabs().len(),
        ensures
            final(self).wf(),
            final(self).spec_tabs() == old(self).spec_tabs().remove(index as int),
            final(self).spec_current() == match old(self).spec_current() {
                Some(t) => if t < old(self).spec_tabs().len() - 1 {
                    Some(t)
                } else if old(self).spec_tabs().len() == 1 {
                    None::<usize>
                } else {
                    Some((old(self).spec_tabs().len() - 2) as usize)
                },
                None => None::<usize>,
            },
    {
        self.tabs.remove(index);
        if let Some(tab) = self.current_tab {
            if tab >= self.tabs.len() {
                self.current_tab = if self.tabs.is_empty() {
                    None
                } else {
                    Some(self.tabs.len() - 1)
                };
            }
        }
    }

    /// Closes the current tab, if one is selected.
    pub fn close_current(&mut self)
        requires
            old(self).wf(),
        ensures
            final(self).wf(),
            match old(self).spec_current() {
                Some(t) => final(self).spec_tabs() == old(self).spec_tabs().remove(t as int)
                    && final(self).spec_current() == (if t < old(self).spec_tabs().len() - 1 {
                    Some(t)
                } else if old(self).spec_tabs().len() == 1 {
                    None::<usize>
                } else {
                    Some((old(self).spec_tabs().len() - 2) as usize)
                }),
                None => *final(self) == *old(self),
            },
    {
        if let Some(current_tab_idx) = self.current_tab_idx() {
            self.close_tab(current_tab_idx);
        }
    }

    /// Whether no tab is open.
    pub fn empty(&self) -> (r: bool)
        ensures
            r == (self.spec_tabs().len() == 0),
    {
        self.tabs.is_empty()
    }

    /// The open files, for iteration in tab order.
    pub fn iter(&self) -> (r: &Vec<MapFile>)
        ensures
            r@ == self.spec_tabs(),
    {
        &self.tabs
    }
}

impl Default for Tabs {
    /// An empty session: no tabs and no selection.
    fn default() -> (r: Self)
        ensures
            r.wf(),
            r.spec_tabs() == Seq::<MapFile>::empty(),
            r.spec_current() is None,
    {
        Tabs { tabs: Vec::new(), current_tab: None }
    }
}

} // verus!
