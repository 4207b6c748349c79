//! Cell state and per-cell payload.

use vstd::prelude::*;
use std::marker::PhantomData;
use crate::math::IVec2;

verus! {

/// Per-cell memory: an opaque, rule-defined JSON value.
#[verifier::external_type_specification]
#[verifier::external_body]
pub struct ExJsonValue(serde_json::Value);

/// State of a single cell.
#[derive(Clone, Copy, Debug, PartialEq, Eq, Structural)]
pub enum CellState {
    Dead,
    /// Positive energy value (1 ..= complexity_level).
    Alive(u8),
}

impl Default for CellState {
    fn default() -> (r: Self)
        ensures
            r == CellState::Dead,
    {
        CellState::Dead
    }
}

impl CellState {
    /// `true` exactly for `Dead`.
    pub fn is_dead(&self) -> (r: bool)
        ensures
            r == (*self is Dead),
    {
        match self {
            CellState::Dead => true,
            CellState::Alive(_) => false,
        }
    }
}

/// A cell: its state plus rule-specific memory.
pub struct Cell {
    pub state: CellState,
    pub memory: serde_json::Value,
}

/// Dimensionality marker of a world.
pub trait Dim {
}

/// Marker of two-dimensional worlds.
pub struct Dim2;

impl Dim for Dim2 {
}

/// Context provided to every rule invocation.
pub struct CellCtx<'a, D: Dim> {
    pub self_coord: IVec2,
    pub self_state: CellState,
    pub neighbourhood: &'a [CellState; 8],
    pub memory: &'a serde_json::Value,
    pub _marker: PhantomData<D>,
}

/// What a rule decides for one cell.
pub enum CellOutcome {
    Unchanged,
    Next { state: CellState, memory: serde_json::Value },
}

/// A cellular-automaton rule, implemented by rule plug-ins.
pub trait AutomatonRule {
    type D: Dim;

    fn next_state<'a>(&self, ctx: CellCtx<'a, Self::D>, params: &serde_json::Value) -> CellOutcome;
}

/// Rule parameters handed to the stepper and the rendering materials.
pub struct RuleParams(pub serde_json::Value);

} // verus!
