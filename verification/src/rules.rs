//! The agent's own rules that need no sensor to decide: given what the
//! sensors read, what a condition answers and what an action reports.

use vstd::prelude::*;
use crate::status::NodeResult;

verus! {

/// The mana a skill takes: its stated cost, and none where it states none.
pub open spec fn mana_cost(cost: Option<i32>) -> int {
    match cost {
        Some(mana) => mana as int,
        None => 0,
    }
}

/// Whether a skill can be used: it is off cooldown and the character has
/// the mana it takes.
pub open spec fn skill_ready(on_cooldown: bool, mana: i32, cost: Option<i32>) -> bool {
    !on_cooldown && mana >= mana_cost(cost)
}

/// Tells whether a skill can be used by a character with `mana` mana.
pub fn skill_is_ready(on_cooldown: bool, mana: i32, cost: Option<i32>) -> (ready: bool)
    ensures
        ready == skill_ready(on_cooldown, mana, cost),
{
    let needed = match cost {
        Some(needed) => needed,
        None => 0,
    };
    !on_cooldown && mana >= needed
}

/// The status of waiting for a skill: `Running` for as long as the skill is
/// on cooldown, `Success` once it is off.
pub fn cooldown_status(on_cooldown: bool) -> (status: NodeResult)
    ensures
        status == if on_cooldown {
            NodeResult::Running
        } else {
            NodeResult::Success
        },
{
    if on_cooldown {
        NodeResult::Running
    } else {
        NodeResult::Success
    }
}

} // verus!
