use vstd::prelude::*;
use std::collections::HashMap;
use crate::botdef::BotDefTag;
use crate::utils::Id;

verus! {

/// The units a mod offers, and for each unit the units it can build.
#[derive(Clone)]
pub struct ModDef {
    pub units_id: Vec<Id<BotDefTag>>,
    pub con_map: HashMap<Id<BotDefTag>, Vec<Id<BotDefTag>>>,
}

impl ModDef {
    /// A mod that offers no unit.
    pub fn new() -> (r: Self)
        ensures
            r.units_id@.len() == 0,
            r.con_map@ == Map::<Id<BotDefTag>, Vec<Id<BotDefTag>>>::empty(),
    {
        ModDef { units_id: Vec::new(), con_map: HashMap::new() }
    }
}

} // verus!
