use vstd::prelude::*;
use crate::botdef::BotDefTag;
use crate::utils::Id;

verus! {

/// The tool that the player holds in the user interface.
#[derive(Clone, Copy, PartialEq)]
pub enum UiTool {
    NoTool,
    Move,
    Repair,
    Guard,
    Attack,
    Spawn(Id<BotDefTag>),
}

} // verus!
