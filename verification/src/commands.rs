//! The automata command step: what the automata layer does for one
//! high-level command, as a list of effects that the host carries out on its
//! registry (register and announce, or remove and announce).

use vstd::prelude::*;
use crate::math::UVec2;
use crate::gpu::GpuGridSlice;
use crate::state::AutomataCommand;

verus! {

/// Side length of the logical slice a seeded automaton starts with.
pub const SEED_SLICE_SIDE: u32 = 256;

/// One thing the automata layer does in answer to a command.
pub enum CommandEffect {
    /// Register a new automaton named after, and stepped by, rule `rule`,
    /// with the logical slice `slice`, then announce it as added.  The atlas
    /// layer and offset are filled in later by the GPU back-end.
    Register { rule: String, slice: GpuGridSlice },
    /// Remove automaton `id` from the registry and announce its removal.
    Remove { id: u64 },
}

/// The logical slice of a freshly seeded automaton of rule `rule`: layer 0,
/// offset `(0, 0)`, `SEED_SLICE_SIDE²` cells, no rule bits.
pub open spec fn seed_slice(rule: String) -> GpuGridSlice {
    GpuGridSlice {
        layer: 0,
        offset: UVec2 { x: 0, y: 0 },
        size: UVec2 { x: SEED_SLICE_SIDE, y: SEED_SLICE_SIDE },
        rule,
        rule_bits: 0,
    }
}

/// Effects of one command.  `rule_known` says whether the rule registry
/// knows the seeded pattern's rule, and `ids` lists the registered automata
/// in registry order.  A seed of an unknown rule is ignored; a seed of a
/// known rule registers one automaton with a fresh slice; `Clear` removes
/// every registered automaton, in list order.
pub fn command_effects(cmd: &AutomataCommand, rule_known: bool, ids: &Vec<u64>) -> (r: Vec<
    CommandEffect,
>)
    ensures
        match cmd {
            AutomataCommand::SeedPattern { id } => if rule_known {
                r@ == seq![CommandEffect::Register { rule: *id, slice: seed_slice(*id) }]
            } else {
                r@.len() == 0
            },
            AutomataCommand::Clear => r@.len() == ids@.len() && forall|k: int|
                0 <= k < ids@.len() ==> #[trigger] r@[k] == (CommandEffect::Remove { id: ids@[k] }),
        },
{
    let mut r: Vec<CommandEffect> = Vec::new();
    match cmd {
        AutomataCommand::SeedPattern { id } => {
            if rule_known {
                let slice = GpuGridSlice {
                    layer: 0,
                    offset: UVec2::zero(),
                    size: UVec2::splat(SEED_SLICE_SIDE),
                    rule: id.clone(),
                    rule_bits: 0,
                };
                r.push(CommandEffect::Register { rule: id.clone(), slice });
                assert(r@ =~= seq![CommandEffect::Register { rule: *id, slice: seed_slice(*id) }]);
            }
        },
        AutomataCommand::Clear => {
            let n = ids.len();
            for k in 0..n
                invariant
                    n == ids@.len(),
                    r@.len() == k,
                    forall|j: int| 0 <= j < k ==> #[trigger] r@[j] == (CommandEffect::Remove { id: ids@[j] }),
            {
                r.push(CommandEffect::Remove { id: ids[k] });
            }
        },
    }
    r
}

} // verus!
