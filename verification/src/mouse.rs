//! Handling user interaction with the game.
//!
//! This module turns what the mouse points at and the button's clicks into
//! hover highlights, and then into game moves like outflow toggles.

use crate::graph::Node;
use crate::state::{Action, Player};
use vstd::prelude::*;

verus! {

/// A thing on the map the user can interact with. Think of this as a mouse
/// position, but put in the terms we actually care about.
#[derive(Debug, Copy, Clone, Eq, PartialEq)]
pub enum Affordance {
    /// The mouse is not over any interesting element on the map.
    Nothing,
    /// The mouse is over an outflow edge between the two nodes.
    Outflow((Node, Node)),
}

/// How to highlight an outflow.
#[derive(Debug, Copy, Clone, Eq, PartialEq, Structural)]
pub enum OutflowState {
    /// Draw the outflow as something one could click on. (The mouse is
    /// hovering over it, or was clicked on it but moved off without being
    /// released.)
    Hover,
    /// Draw the outflow as being clicked upon, but not yet released.
    /// (The mouse was clicked on it, and is still over it.)
    Active,
}

/// How to display the current mouse state.
#[derive(Debug, Copy, Clone, Eq, PartialEq)]
pub enum Display {
    Nothing,
    /// We're going to highlight an outflow.
    Outflow { nodes: (Node, Node), state: OutflowState },
}

/// The game's state for handling mouse activity.
#[derive(Debug, Copy, Clone, Eq, PartialEq)]
pub struct Mouse {
    /// The player we represent.
    pub player: Player,
    /// Where we last saw the mouse, broken down by which clickable element
    /// it is over.
    pub position: Affordance,
    /// If the mouse is clicked, this is where the button went down.
    pub click: Option<Affordance>,
}

impl Mouse {
    /// The action that releasing the button gives rise to: a toggle of the
    /// outflow that the button went down on, if the mouse is still over it.
    pub open spec fn released(&self) -> Option<Action> {
        match self.click {
            Some(Affordance::Outflow(edge)) => if self.position == Affordance::Outflow(edge) {
                Some(Action::ToggleOutflow { player: self.player, from: edge.0, to: edge.1 })
            } else {
                None
            },
            _ => None,
        }
    }

    /// What to highlight: an outflow that the button went down on, as active
    /// while the mouse is still over it and as hovered over once it has
    /// moved to another; without a click, the outflow under the mouse.
    pub open spec fn shown(&self) -> Display {
        match (self.click, self.position) {
            (None, Affordance::Outflow(edge)) => Display::Outflow {
                nodes: edge,
                state: OutflowState::Hover,
            },
            (Some(Affordance::Outflow(clicked)), Affordance::Outflow(edge)) => Display::Outflow {
                nodes: clicked,
                state: if clicked == edge {
                    OutflowState::Active
                } else {
                    OutflowState::Hover
                },
            },
            _ => Display::Nothing,
        }
    }

    /// A mouse for `player` that is over nothing, with the button up.
    pub fn new(player: Player) -> (mouse: Mouse)
        ensures
            mouse == (Mouse { player, position: Affordance::Nothing, click: None }),
    {
        Mouse { player, position: Affordance::Nothing, click: None }
    }

    /// Report that the mouse moved to where `hit` is the outflow edge under
    /// it, if there is one.
    pub fn move_to(&mut self, hit: Option<(Node, Node)>)
        ensures
            *final(self) == (Mouse {
                position: match hit {
                    Some(edge) => Affordance::Outflow(edge),
                    None => Affordance::Nothing,
                },
                ..*old(self)
            }),
    {
        self.position =
        match hit {
            Some(edge) => Affordance::Outflow(edge),
            None => Affordance::Nothing,
        };
    }

    /// The main mouse button was clicked at the last reported position.
    pub fn click(&mut self)
        ensures
            *final(self) == (Mouse { click: Some(old(self).position), ..*old(self) }),
    {
        self.click = Some(self.position);
    }

    /// The main mouse button was released. This may return an action to
    /// carry out on the state: none without a click, none if the mouse has
    /// left what was clicked on, none if that was nothing.
    pub fn release(&mut self) -> (action: Option<Action>)
        ensures
            action == old(self).released(),
            *final(self) == (Mouse { click: None, ..*old(self) }),
    {
        let clicked: Option<Affordance> = self.click;
        self.click = None;
        match (clicked, self.position) {
            (Some(Affordance::Outflow(edge)), Affordance::Outflow(under)) => {
                // Releasing on something other than what was clicked on is
                // a drag-off, which does nothing.
                if edge.0 == under.0 && edge.1 == under.1 {
                    Some(Action::ToggleOutflow { player: self.player, from: edge.0, to: edge.1 })
                } else {
                    None
                }
            },
            _ => None,
        }
    }

    /// Choose how to display the interactive parts of the game grid.
    pub fn display(&self) -> (display: Display)
        ensures
            display == self.shown(),
    {
        match (self.click, self.position) {
            (None, Affordance::Outflow(edge)) => Display::Outflow {
                nodes: edge,
                state: OutflowState::Hover,
            },
            (Some(Affordance::Outflow(clicked)), Affordance::Outflow(edge)) => {
                if clicked.0 == edge.0 && clicked.1 == edge.1 {
                    Display::Outflow { nodes: clicked, state: OutflowState::Active }
                } else {
                    Display::Outflow { nodes: clicked, state: OutflowState::Hover }
                }
            },
            _ => Display::Nothing,
        }
    }
}

} // verus!
