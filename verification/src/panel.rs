//! The state of a collapsible side panel.
use vstd::prelude::*;

verus! {

/// Whether a side panel is open and which screen side it sits on.
#[derive(Debug, Clone, Copy, PartialEq, Eq, Structural)]
pub struct PanelState {
    /// whether the panel is open
    pub open: bool,
    /// `true` for the right side, `false` for the left
    pub side: bool,
}

impl PanelState {
    /// A closed panel on the given side.
    pub fn new(side: bool) -> (r: PanelState)
        ensures
            r == (PanelState { open: false, side }),
    {
        PanelState { open: false, side }
    }

    /// Whether the panel is open.
    pub fn is_open(&self) -> (r: bool)
        ensures
            r == self.open,
    {
        self.open
    }

    /// The collapse arrow to draw: pointing toward the panel's side.
    pub fn arrow(&self) -> (r: &'static str)
        ensures
            self.side ==> r@ =~= seq!['<', '<'],
            !self.side ==> r@ =~= seq!['>', '>'],
    {
        proof {
            reveal_strlit("<<");
            reveal_strlit(">>");
        }
        if self.side {
            "<<"
        } else {
            ">>"
        }
    }

    /// Toggle the panel open or closed.
    pub fn toggle_open_mut(&mut self)
        ensures
            final(self).open == !old(self).open,
            final(self).side == old(self).side,
    {
        self.open = !self.open;
    }
}

} // verus!
