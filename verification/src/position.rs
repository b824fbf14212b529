//! Where a segment stands in the chain that is shown, and how it is shown.

use itertools::Itertools;
use vstd::prelude::*;

verus! {

/// The place of an item in a sequence.
#[derive(Debug, Clone, Copy, PartialEq, Eq, Structural)]
pub enum Position {
    /// The first of several.
    First,
    /// Neither the first nor the last.
    Middle,
    /// The last of several.
    Last,
    /// The only one.
    Only,
}

/// How a segment of the chain is shown.
#[derive(Debug, Clone, Copy, PartialEq, Eq, Structural)]
pub enum DisplayRole {
    /// The root of the file system: it has no name, the separator stands for it.
    RootAnchor,
    /// The home directory at the head of the chain: `~` stands for it.
    HomeAnchor,
    /// The name is shown in full.
    FullName,
    /// The name is cut to its shortest unique prefix.
    AbbreviatedName,
}

/// The place of item `index` among `count` items.
pub open spec fn position_of(index: int, count: int) -> Position {
    if count == 1 {
        Position::Only
    } else if index == 0 {
        Position::First
    } else if index == count - 1 {
        Position::Last
    } else {
        Position::Middle
    }
}

/// The role of a segment at `position` in the chain that is shown.
///
/// The head of a chain that starts at the home directory is the home anchor.
/// Otherwise a segment without a parent is the root. Of the others the last
/// one, or the only one, has its full name, and every other one is
/// abbreviated.
pub open spec fn role_of(position: Position, home_anchored: bool, has_parent: bool) -> DisplayRole {
    if home_anchored && (position is First || position is Only) {
        DisplayRole::HomeAnchor
    } else if !has_parent {
        DisplayRole::RootAnchor
    } else if position is Last || position is Only {
        DisplayRole::FullName
    } else {
        DisplayRole::AbbreviatedName
    }
}

/// `Itertools::with_position` over `count` items: the place of each in turn.
/// One item alone is the only one. Of several the first is first, the last
/// is last, and all between are in the middle.
#[verifier::external_body]
pub(crate) fn positions(count: usize) -> (places: Vec<Position>)
    ensures
        places@.len() == count,
        forall|i: int| 0 <= i < count ==> #[trigger] places@[i] == position_of(i, count as int),
{
    (0..count).with_position().map(|place| match place {
        itertools::Position::First(_) => Position::First,
        itertools::Position::Middle(_) => Position::Middle,
        itertools::Position::Last(_) => Position::Last,
        itertools::Position::Only(_) => Position::Only,
    }).collect()
}

/// Decides how the segment at `position` is shown.
pub fn display_role(position: Position, home_anchored: bool, has_parent: bool) -> (role:
    DisplayRole)
    ensures
        role == role_of(position, home_anchored, has_parent),
{
    match position {
        Position::First => if home_anchored {
            DisplayRole::HomeAnchor
        } else if has_parent {
            DisplayRole::AbbreviatedName
        } else {
            DisplayRole::RootAnchor
        },
        Position::Only => if home_anchored {
            DisplayRole::HomeAnchor
        } else if has_parent {
            DisplayRole::FullName
        } else {
            DisplayRole::RootAnchor
        },
        Position::Middle => if has_parent {
            DisplayRole::AbbreviatedName
        } else {
            DisplayRole::RootAnchor
        },
        Position::Last => if has_parent {
            DisplayRole::FullName
        } else {
            DisplayRole::RootAnchor
        },
    }
}

} // verus!
