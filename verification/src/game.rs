//! Game flow: which top-level state the device runner is in.

use vstd::prelude::*;

verus! {

/// The top-level states a game tick can hand control to.
#[derive(PartialEq, Eq, Structural, Debug)]
pub enum StateKind {
    Main,
    Menu,
    Game1,
    Egg,
}

} // verus!
