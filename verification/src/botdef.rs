use vstd::prelude::*;

verus! {

/// Tag of the identifiers that name a bot definition.
#[derive(Clone, Copy)]
pub struct BotDefTag;

} // verus!
