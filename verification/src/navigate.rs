//! Panel identifiers and the focus pair: which panel the grid cursor
//! highlights (`selected_block`) and which panel is entered
//! (`active_block`).

use vstd::prelude::*;

verus! {

/// Which full-screen view is shown.
pub enum Screen {
    Default,
    Help,
}

/// A focusable panel of the interface.
#[derive(PartialEq, Eq, Structural, Copy, Clone, Debug)]
pub enum ActiveBlock {
    Tools,
    Help,
    Timer,
    Times,
    Scramble,
    Stats,
    Home,
    Main,
}

/// A direction intent from the keyboard.
pub enum Dir {
    Up,
    Down,
    Left,
    Right,
}

/// A panel shown in the main area.
pub enum Tool {
    Welcome,
    Chart,
}

/// How a panel should be highlighted: it is the entered panel, the panel
/// the grid cursor points at, or neither.
#[derive(PartialEq, Eq, Structural, Copy, Clone, Debug)]
pub enum FocusClass {
    Active,
    Selected,
    Normal,
}

/// The focus pair: the highlighted panel and the entered panel.
pub struct Route {
    pub selected_block: ActiveBlock,
    pub active_block: ActiveBlock,
}

impl Route {
    /// The initial focus: the Times panel highlighted, the Home state
    /// entered (grid movement enabled).
    pub fn default() -> (r: Route)
        ensures
            r.selected_block == ActiveBlock::Times,
            r.active_block == ActiveBlock::Home,
    {
        Route { selected_block: ActiveBlock::Times, active_block: ActiveBlock::Home }
    }

    /// Leave the entered panel: return to the Home state; already being
    /// there changes nothing.
    pub fn esc(&mut self)
        ensures
            final(self).active_block == ActiveBlock::Home,
            final(self).selected_block == old(self).selected_block,
    {
        if self.active_block != ActiveBlock::Home {
            self.active_block = ActiveBlock::Home;
        }
    }

    /// Enter the highlighted panel.
    pub fn enter(&mut self)
        ensures
            final(self).active_block == old(self).selected_block,
            final(self).selected_block == old(self).selected_block,
    {
        self.active_block = self.selected_block;
    }
}

} // verus!
