//! GPU compute back-end bookkeeping: atlas slices attached to automata,
//! frame parity, the per-rule dispatch batches and the parameter records
//! uploaded for each dispatch.

use vstd::prelude::*;
use crate::math::UVec2;
use crate::gpu_atlas::{
    AtlasAllocator, has_fit, first_fit, after_allocation, fresh_atlas, alloc_result,
    lemma_first_fit_unique,
};

verus! {

/// Side length of the slice reserved for every newly added automaton.
pub const NEW_SLICE_SIDE: u32 = 256;
/// Birth/survival mask given to newly attached slices.
pub const DEFAULT_RULE_BITS: u32 = 0b0001_1000;
/// Workgroup edge length of the compute shaders.
pub const WORKGROUP_SIZE: u32 = 16;

/// Where an automaton lives in the state-texture atlas and which rule
/// steps it.
pub struct GpuGridSlice {
    pub layer: u32,
    pub offset: UVec2,
    pub size: UVec2,
    pub rule: String,
    pub rule_bits: u32,
}

impl Clone for GpuGridSlice {
    fn clone(&self) -> (r: Self)
        ensures
            r == *self,
    {
        GpuGridSlice {
            layer: self.layer,
            offset: self.offset,
            size: self.size,
            rule: self.rule.clone(),
            rule_bits: self.rule_bits,
        }
    }
}

/// Reserves an atlas slice for a newly added automaton: a
/// `NEW_SLICE_SIDE²` first-fit allocation stepped by the `"life"` rule with
/// `DEFAULT_RULE_BITS`; `None` when the atlas is full.
pub fn slice_for_new_automaton(atlas: &mut AtlasAllocator) -> (r: Option<GpuGridSlice>)
    requires
        old(atlas).wf(),
    ensures
        final(atlas).wf(),
        ({
            let size = UVec2 { x: NEW_SLICE_SIDE, y: NEW_SLICE_SIDE };
            let s = old(atlas).spaces();
            let i = first_fit(s, size);
            &&& r is None <==> !has_fit(s, size)
            &&& r is None ==> final(atlas).spaces() == s
            &&& r matches Some(slice) ==> {
                &&& slice.layer == s[i].0
                &&& slice.offset == s[i].1
                &&& slice.size == size
                &&& slice.rule@ == "life"@
                &&& slice.rule_bits == DEFAULT_RULE_BITS
                &&& final(atlas).spaces() == after_allocation(s, i, size)
            }
        }),
{
    let size = UVec2::splat(NEW_SLICE_SIDE);
    match atlas.allocate(size) {
        Some((layer, offset)) => Some(
            GpuGridSlice {
                layer,
                offset,
                size,
                rule: "life".to_owned(),
                rule_bits: DEFAULT_RULE_BITS,
            },
        ),
        None => None,
    }
}

/// One-bit flag: `false` → read = ping, `true` → read = pong.
pub struct FrameParity(pub bool);

impl FrameParity {
    /// Starts on ping.
    pub fn new() -> (r: Self)
        ensures
            r.0 == false,
    {
        FrameParity(false)
    }

    /// Swaps ping and pong (done once per extracted frame).
    pub fn flip(&mut self)
        ensures
            final(self).0 == !old(self).0,
    {
        self.0 = !self.0;
    }

    /// The parity as the `u32` written to the uniform buffer.
    pub fn as_u32(&self) -> (r: u32)
        ensures
            r == (if self.0 {
                1u32
            } else {
                0u32
            }),
    {
        if self.0 {
            1
        } else {
            0
        }
    }
}

/// Parity after `k` flips, starting from `start`.
pub open spec fn parity_after_flips(start: bool, k: nat) -> bool
    decreases k,
{
    if k == 0 {
        start
    } else {
        !parity_after_flips(start, (k - 1) as nat)
    }
}

/// The frame parity counts extract runs modulo two: a fresh parity (`false`,
/// see [`FrameParity::new`]) flipped once per extract (see
/// [`FrameParity::flip`]) reads pong after `k` extracts exactly when `k` is
/// odd.
pub proof fn lemma_parity_counts_extracts(k: nat)
    ensures
        parity_after_flips(false, k) == (k % 2 == 1),
        parity_after_flips(false, k + 1) == !parity_after_flips(false, k),
    decreases k,
{
    if k > 0 {
        lemma_parity_counts_extracts((k - 1) as nat);
    }
}

/// After the atlas is reset (on entering the main menu, see
/// [`AtlasAllocator::reset`]), the next new-automaton slice fits and is
/// carved from the corner of layer 0: [`slice_for_new_automaton`] returns
/// layer 0 and offset `(0, 0)`.
pub proof fn lemma_reset_atlas_first_slice()
    ensures
        has_fit(fresh_atlas(), UVec2 { x: NEW_SLICE_SIDE, y: NEW_SLICE_SIDE }),
        first_fit(fresh_atlas(), UVec2 { x: NEW_SLICE_SIDE, y: NEW_SLICE_SIDE }) == 0,
        fresh_atlas()[0].0 == 0 && fresh_atlas()[0].1 == (UVec2 { x: 0, y: 0 }),
        alloc_result(fresh_atlas(), UVec2 { x: NEW_SLICE_SIDE, y: NEW_SLICE_SIDE }) == Some(
            (0u32, UVec2 { x: 0, y: 0 }),
        ),
{
    lemma_first_fit_unique(fresh_atlas(), UVec2 { x: NEW_SLICE_SIDE, y: NEW_SLICE_SIDE }, 0);
}

/// Per-slice record of the storage buffer read by the compute shader.
#[derive(Clone, Copy, Debug, PartialEq, Eq, Structural)]
pub struct AutomatonParams {
    pub size_x: u32,
    pub size_y: u32,
    pub layer: u32,
    pub rule: u32,
    pub offset_x: u32,
    pub offset_y: u32,
}

/// The parameter record of one slice.
pub open spec fn params_of(s: GpuGridSlice) -> AutomatonParams {
    AutomatonParams {
        size_x: s.size.x,
        size_y: s.size.y,
        layer: s.layer,
        rule: s.rule_bits,
        offset_x: s.offset.x,
        offset_y: s.offset.y,
    }
}

/// Parameter records for a batch, one per slice, in order.
pub fn automaton_params(slices: &Vec<GpuGridSlice>) -> (r: Vec<AutomatonParams>)
    ensures
        r@.len() == slices@.len(),
        forall|k: int| 0 <= k < slices@.len() ==> #[trigger] r@[k] == params_of(slices@[k]),
{
    let mut r: Vec<AutomatonParams> = Vec::new();
    let n = slices.len();
    for i in 0..n
        invariant
            n == slices@.len(),
            r@.len() == i,
            forall|k: int| 0 <= k < i ==> #[trigger] r@[k] == params_of(slices@[k]),
    {
        let s = &slices[i];
        r.push(
            AutomatonParams {
                size_x: s.size.x,
                size_y: s.size.y,
                layer: s.layer,
                rule: s.rule_bits,
                offset_x: s.offset.x,
                offset_y: s.offset.y,
            },
        );
    }
    r
}

/// Largest width among the slices (0 for none).
pub open spec fn max_width(s: Seq<GpuGridSlice>) -> u32
    decreases s.len(),
{
    if s.len() == 0 {
        0
    } else {
        let m = max_width(s.drop_last());
        if s.last().size.x > m {
            s.last().size.x
        } else {
            m
        }
    }
}

/// Largest height among the slices (0 for none).
pub open spec fn max_height(s: Seq<GpuGridSlice>) -> u32
    decreases s.len(),
{
    if s.len() == 0 {
        0
    } else {
        let m = max_height(s.drop_last());
        if s.last().size.y > m {
            s.last().size.y
        } else {
            m
        }
    }
}

/// Workgroups needed to cover `n` texels with `WORKGROUP_SIZE`-wide groups.
pub open spec fn groups_for(n: u32) -> u32 {
    ((n + 15) / 16) as u32
}

/// Every slice size leaves room for rounding up to whole workgroups.
pub open spec fn sizes_roundable(s: Seq<GpuGridSlice>) -> bool {
    forall|k: int|
        0 <= k < s.len() ==> #[trigger] s[k].size.x <= u32::MAX - 15 && s[k].size.y <= u32::MAX
            - 15
}

/// Dispatch dimensions of one batch: enough 16×16 workgroups to cover the
/// widest and the tallest slice, one z-slot per slice.
pub fn dispatch_size(slices: &Vec<GpuGridSlice>) -> (r: (u32, u32, u32))
    requires
        slices@.len() > 0,
        sizes_roundable(slices@),
    ensures
        r.0 == groups_for(max_width(slices@)),
        r.1 == groups_for(max_height(slices@)),
        r.2 == slices@.len() as u32,
{
    let n = slices.len();
    let mut max_w: u32 = 0;
    let mut max_h: u32 = 0;
    for i in 0..n
        invariant
            n == slices@.len(),
            max_w == max_width(slices@.take(i as int)),
            max_h == max_height(slices@.take(i as int)),
            max_w <= u32::MAX - 15,
            max_h <= u32::MAX - 15,
            sizes_roundable(slices@),
    {
        proof {
            assert(slices@.take(i + 1).drop_last() =~= slices@.take(i as int));
        }
        if slices[i].size.x > max_w {
            max_w = slices[i].size.x;
        }
        if slices[i].size.y > max_h {
            max_h = slices[i].size.y;
        }
    }
    proof {
        assert(slices@.take(n as int) =~= slices@);
    }
    ((max_w + 15) / WORKGROUP_SIZE, (max_h + 15) / WORKGROUP_SIZE, n as u32)
}


/// Slices of `s` stepped by `rule`, in input order.
pub open spec fn with_rule(s: Seq<GpuGridSlice>, rule: Seq<char>) -> Seq<GpuGridSlice>
    decreases s.len(),
{
    if s.len() == 0 {
        seq![]
    } else {
        let g = with_rule(s.drop_last(), rule);
        if s.last().rule@ == rule {
            g.push(s.last())
        } else {
            g
        }
    }
}

/// Distinct rules of `s`, in order of first appearance.
pub open spec fn rules_of(s: Seq<GpuGridSlice>) -> Seq<Seq<char>>
    decreases s.len(),
{
    if s.len() == 0 {
        seq![]
    } else {
        let r = rules_of(s.drop_last());
        if r.contains(s.last().rule@) {
            r
        } else {
            r.push(s.last().rule@)
        }
    }
}

/// No rule is listed twice, and a rule absent from the list steps no slice.
pub proof fn lemma_rules_of(s: Seq<GpuGridSlice>)
    ensures
        rules_of(s).no_duplicates(),
        forall|q: Seq<char>| !rules_of(s).contains(q) ==> #[trigger] with_rule(s, q) == Seq::<
            GpuGridSlice,
        >::empty(),
        forall|q: Seq<char>| #[trigger] rules_of(s).contains(q) ==> with_rule(s, q).len() > 0,
    decreases s.len(),
{
    if s.len() > 0 {
        lemma_rules_of(s.drop_last());
        let r = rules_of(s.drop_last());
        if !r.contains(s.last().rule@) {
            assert forall|a: int, b: int|
                0 <= a < rules_of(s).len() && 0 <= b < rules_of(s).len() && a != b implies rules_of(
                s,
            )[a] != rules_of(s)[b] by {
                if a < r.len() && b < r.len() {
                } else if a < r.len() {
                    assert(r.contains(r[a]));
                } else {
                    assert(r.contains(r[b]));
                }
            }
        }
        assert forall|q: Seq<char>| !rules_of(s).contains(q) implies #[trigger] with_rule(s, q)
            == Seq::<GpuGridSlice>::empty() by {
            assert(rules_of(s).contains(s.last().rule@)) by {
                if r.contains(s.last().rule@) {
                } else {
                    assert(rules_of(s)[r.len() as int] == s.last().rule@);
                }
            }
            if r.contains(q) {
                let k = choose|k: int| 0 <= k < r.len() && r[k] == q;
                if !r.contains(s.last().rule@) {
                    assert(rules_of(s)[k] == q);
                }
                assert(rules_of(s).contains(q));
            }
            assert(q != s.last().rule@);
            assert(with_rule(s.drop_last(), q) == Seq::<GpuGridSlice>::empty());
        }
        assert forall|q: Seq<char>| #[trigger] rules_of(s).contains(q) implies with_rule(s, q).len()
            > 0 by {
            if q != s.last().rule@ {
                let k = choose|k: int| 0 <= k < rules_of(s).len() && rules_of(s)[k] == q;
                if r.contains(s.last().rule@) {
                    assert(r.contains(q));
                } else {
                    assert(k < r.len());
                    assert(r.contains(q));
                }
            }
        }
    }
}

/// The slices of one rule, dispatched together with one pipeline.
pub struct RuleBatch {
    pub rule: String,
    pub slices: Vec<GpuGridSlice>,
}

/// Groups the slices by rule: one batch per distinct rule, in order of first
/// appearance, each holding that rule's slices in input order.
pub fn batch_by_rule(slices: &Vec<GpuGridSlice>) -> (r: Vec<RuleBatch>)
    ensures
        r@.len() == rules_of(slices@).len(),
        forall|k: int|
            0 <= k < r@.len() ==> {
                &&& (#[trigger] r@[k]).rule@ == rules_of(slices@)[k]
                &&& r@[k].slices@ == with_rule(slices@, rules_of(slices@)[k])
            },
{
    let mut batches: Vec<RuleBatch> = Vec::new();
    let n = slices.len();
    for i in 0..n
        invariant
            n == slices@.len(),
            batches@.len() == rules_of(slices@.take(i as int)).len(),
            forall|k: int|
                0 <= k < batches@.len() ==> {
                    &&& (#[trigger] batches@[k]).rule@ == rules_of(slices@.take(i as int))[k]
                    &&& batches@[k].slices@ == with_rule(
                        slices@.take(i as int),
                        rules_of(slices@.take(i as int))[k],
                    )
                },
    {
        let ghost prev = slices@.take(i as int);
        let ghost cur = slices@.take(i + 1);
        proof {
            assert(cur.drop_last() =~= prev);
            assert(cur.last() == slices@[i as int]);
            lemma_rules_of(prev);
        }
        let slice = slices[i].clone();
        let nb = batches.len();
        let mut j: usize = 0;
        while j < nb
            invariant
                nb == batches@.len(),
                j <= nb,
                forall|k: int| 0 <= k < j ==> (#[trigger] batches@[k]).rule@ != slice.rule@,
            ensures
                j <= nb,
                forall|k: int| 0 <= k < j ==> (#[trigger] batches@[k]).rule@ != slice.rule@,
                j < nb ==> batches@[j as int].rule@ == slice.rule@,
            decreases nb - j,
        {
            if batches[j].rule == slice.rule {
                break;
            }
            j += 1;
        }
        if j < nb {
            let ghost old_batches = batches@;
            assert(rules_of(prev)[j as int] == slice.rule@);
            assert(rules_of(prev).contains(slice.rule@));
            batches[j].slices.push(slice);
            assert forall|k: int| 0 <= k < batches@.len() implies {
                &&& (#[trigger] batches@[k]).rule@ == rules_of(cur)[k]
                &&& batches@[k].slices@ == with_rule(cur, rules_of(cur)[k])
            } by {
                if k != j {
                    assert(batches@[k] == old_batches[k]);
                    assert(rules_of(prev)[k] != rules_of(prev)[j as int]);
                }
            }
        } else {
            let ghost old_batches = batches@;
            assert(!rules_of(prev).contains(slice.rule@)) by {
                if rules_of(prev).contains(slice.rule@) {
                    let k = choose|k: int|
                        0 <= k < rules_of(prev).len() && rules_of(prev)[k] == slice.rule@;
                    assert(batches@[k].rule@ != slice.rule@);
                }
            }
            let rule = slice.rule.clone();
            let mut group: Vec<GpuGridSlice> = Vec::new();
            group.push(slice);
            batches.push(RuleBatch { rule, slices: group });
            assert forall|k: int| 0 <= k < batches@.len() implies {
                &&& (#[trigger] batches@[k]).rule@ == rules_of(cur)[k]
                &&& batches@[k].slices@ == with_rule(cur, rules_of(cur)[k])
            } by {
                if k < old_batches.len() {
                    assert(batches@[k] == old_batches[k]);
                    assert(rules_of(prev).contains(rules_of(prev)[k]));
                } else {
                    assert(with_rule(prev, slice.rule@) == Seq::<GpuGridSlice>::empty());
                    assert(batches@[k].slices@ =~= with_rule(cur, rules_of(cur)[k]));
                }
            }
        }
    }
    proof {
        assert(slices@.take(n as int) =~= slices@);
    }
    batches
}

/// Every slice is dispatched with its rule's batch: its rule is listed
/// among the batch rules, and it belongs to that rule's group.
pub proof fn lemma_every_slice_batched(s: Seq<GpuGridSlice>, k: int)
    requires
        0 <= k < s.len(),
    ensures
        rules_of(s).contains(s[k].rule@),
        with_rule(s, s[k].rule@).contains(s[k]),
    decreases s.len(),
{
    let d = s.drop_last();
    if k < s.len() - 1 {
        lemma_every_slice_batched(d, k);
        assert(d[k] == s[k]);
        let r = rules_of(d);
        if !r.contains(s.last().rule@) {
            let j = choose|j: int| 0 <= j < r.len() && r[j] == s[k].rule@;
            assert(rules_of(s)[j] == s[k].rule@);
        }
        let g = with_rule(d, s[k].rule@);
        let j = choose|j: int| 0 <= j < g.len() && g[j] == s[k];
        assert(with_rule(s, s[k].rule@)[j] == s[k]);
    } else {
        let r = rules_of(d);
        if !r.contains(s.last().rule@) {
            assert(rules_of(s)[r.len() as int] == s[k].rule@);
        }
        let g = with_rule(s, s[k].rule@);
        assert(g[g.len() - 1] == s[k]);
    }
}

} // verus!
