use soul_engine::commands::{command_effects, CommandEffect, SEED_SLICE_SIDE};
use soul_engine::math::UVec2;
use soul_engine::state::AutomataCommand;

#[test]
fn seed_of_known_rule_registers_one_fresh_slice() {
    let cmd = AutomataCommand::SeedPattern { id: "life".to_string() };
    let effects = command_effects(&cmd, true, &vec![1, 2]);
    assert_eq!(effects.len(), 1);
    match &effects[0] {
        CommandEffect::Register { rule, slice } => {
            assert_eq!(rule, "life");
            assert_eq!(slice.layer, 0);
            assert_eq!(slice.offset, UVec2::new(0, 0));
            assert_eq!(slice.size, UVec2::new(256, 256));
            assert_eq!(SEED_SLICE_SIDE, 256);
            assert_eq!(slice.rule, "life");
            assert_eq!(slice.rule_bits, 0);
        }
        CommandEffect::Remove { .. } => panic!("expected a registration"),
    }
}

#[test]
fn seed_of_unknown_rule_is_ignored() {
    let cmd = AutomataCommand::SeedPattern { id: "nope".to_string() };
    assert!(command_effects(&cmd, false, &vec![7]).is_empty());
}

#[test]
fn clear_removes_every_automaton_in_order() {
    let effects = command_effects(&AutomataCommand::Clear, false, &vec![4, 9, 2]);
    let ids: Vec<u64> = effects
        .iter()
        .map(|e| match e {
            CommandEffect::Remove { id } => *id,
            CommandEffect::Register { .. } => panic!("expected removals only"),
        })
        .collect();
    assert_eq!(ids, vec![4, 9, 2]);
    assert!(command_effects(&AutomataCommand::Clear, true, &vec![]).is_empty());
}
