//! The game around the maze: the levels, the title menu, and the states that
//! a session moves through.

use vstd::prelude::*;

verus! {

/// What the program is showing.
#[derive(Clone, Copy, Debug, PartialEq, Eq, Structural)]
pub enum GameState {
    Title,
    Playing,
    Win,
}

/// The number of levels on the title menu.
pub const LEVEL_COUNT: usize = 3;

/// The keys that went down in one frame.
#[derive(Clone, Copy, Debug)]
pub struct Keys {
    pub up: bool,
    pub down: bool,
    pub left: bool,
    pub right: bool,
    pub one: bool,
    pub two: bool,
    pub three: bool,
    pub enter: bool,
    pub space: bool,
    pub retry: bool,
}

/// What one frame of input leads to.
#[derive(Clone, Copy, Debug, PartialEq, Eq, Structural)]
pub struct Transition {
    /// The state of the next frame.
    pub state: GameState,
    /// The level that is selected on the menu.
    pub selected: usize,
    /// Whether the selected level is to be built and started.
    pub start_level: bool,
}

/// The cell grid of each level: width, then height.
pub open spec fn spec_level_cells(index: int) -> (usize, usize) {
    if index == 0 {
        (12, 9)
    } else if index == 1 {
        (14, 10)
    } else {
        (16, 12)
    }
}

/// The cell grid of level `index`.
pub fn level_cells(index: usize) -> (cells: (usize, usize))
    requires
        index < LEVEL_COUNT,
    ensures
        cells == spec_level_cells(index as int),
{
    if index == 0 {
        (12, 9)
    } else if index == 1 {
        (14, 10)
    } else {
        (16, 12)
    }
}

/// The menu selection after the keys of one frame. Up or left moves to the
/// level before, down or right to the level after, both around the ends;
/// then the number keys pick a level, the higher number winning.
pub open spec fn spec_select(selected: int, keys: Keys) -> int {
    let back = if keys.up || keys.left {
        if selected == 0 {
            LEVEL_COUNT - 1
        } else {
            selected - 1
        }
    } else {
        selected
    };
    let forth = if keys.down || keys.right {
        (back + 1) % (LEVEL_COUNT as int)
    } else {
        back
    };
    if keys.three {
        2
    } else if keys.two {
        1
    } else if keys.one {
        0
    } else {
        forth
    }
}

/// What follows from the state, the menu selection and one frame of input;
/// `at_goal` says whether the player stands in the goal cell.
pub open spec fn spec_step(state: GameState, selected: int, keys: Keys, at_goal: bool) -> Transition {
    match state {
        GameState::Title => {
            let sel = spec_select(selected, keys);
            if keys.enter || keys.space {
                Transition { state: GameState::Playing, selected: sel as usize, start_level: true }
            } else {
                Transition { state: GameState::Title, selected: sel as usize, start_level: false }
            }
        },
        GameState::Playing => Transition {
            state: if at_goal {
                GameState::Win
            } else {
                GameState::Playing
            },
            selected: selected as usize,
            start_level: false,
        },
        GameState::Win => if keys.retry {
            Transition { state: GameState::Playing, selected: selected as usize, start_level: true }
        } else if keys.enter {
            Transition { state: GameState::Title, selected: selected as usize, start_level: false }
        } else {
            Transition { state: GameState::Win, selected: selected as usize, start_level: false }
        },
    }
}

/// Moves the menu selection by the keys of one frame.
pub fn select(selected: usize, keys: &Keys) -> (sel: usize)
    requires
        selected < LEVEL_COUNT,
    ensures
        sel == spec_select(selected as int, *keys),
        sel < LEVEL_COUNT,
{
    let mut sel: usize = selected;
    if keys.up || keys.left {
        if sel == 0 {
            sel = LEVEL_COUNT - 1;
        } else {
            sel -= 1;
        }
    }
    if keys.down || keys.right {
        sel = (sel + 1) % LEVEL_COUNT;
    }
    if keys.one {
        sel = 0;
    }
    if keys.two {
        sel = 1;
    }
    if keys.three {
        sel = 2;
    }
    sel
}

/// Decides the next frame's state. On the title screen the keys move the
/// selection, and enter or space starts the selected level. While playing,
/// reaching the goal wins. On the win screen enter leads back to the title
/// and the retry key starts the same level again.
pub fn step(state: GameState, selected: usize, keys: &Keys, at_goal: bool) -> (t: Transition)
    requires
        selected < LEVEL_COUNT,
    ensures
        t == spec_step(state, selected as int, *keys, at_goal),
        t.selected < LEVEL_COUNT,
{
    match state {
        GameState::Title => {
            let sel: usize = select(selected, keys);
            if keys.enter || keys.space {
                Transition { state: GameState::Playing, selected: sel, start_level: true }
            } else {
                Transition { state: GameState::Title, selected: sel, start_level: false }
            }
        },
        GameState::Playing => {
            let next = if at_goal {
                GameState::Win
            } else {
                GameState::Playing
            };
            Transition { state: next, selected, start_level: false }
        },
        GameState::Win => {
            let mut next = GameState::Win;
            if keys.enter {
                next = GameState::Title;
            }
            let mut start_level: bool = false;
            if keys.retry {
                start_level = true;
                next = GameState::Playing;
            }
            Transition { state: next, selected, start_level }
        },
    }
}

} // verus!
