//! Planning of the per-frame compute pass: one dispatch per rule that has a
//! cached pipeline, covering every slice stepped by that rule.

use vstd::prelude::*;
use crate::gpu::{
    GpuGridSlice, AutomatonParams, batch_by_rule, automaton_params, dispatch_size,
    with_rule, rules_of, params_of, max_width, max_height, groups_for, sizes_roundable,
    lemma_rules_of, lemma_every_slice_batched,
};
use crate::pipelines::GpuPipelineCache;

verus! {

/// One compute dispatch: the rule's pipeline, the parameter records of its
/// slices and the workgroup counts.
pub struct DispatchPlan<Id> {
    pub rule: String,
    pub pipeline: Id,
    pub params: Vec<AutomatonParams>,
    pub workgroups: (u32, u32, u32),
}

/// The rules of `rules` that have a cached pipeline, in order.
pub open spec fn cached_rules<Id>(rules: Seq<Seq<char>>, cache: Map<Seq<char>, Id>) -> Seq<
    Seq<char>,
>
    decreases rules.len(),
{
    if rules.len() == 0 {
        seq![]
    } else {
        let r = cached_rules(rules.drop_last(), cache);
        if cache.dom().contains(rules.last()) {
            r.push(rules.last())
        } else {
            r
        }
    }
}

/// Every slice of `with_rule(s, q)` is stepped by `q` and is a slice of `s`.
pub proof fn lemma_with_rule_members(s: Seq<GpuGridSlice>, q: Seq<char>)
    ensures
        forall|m: int|
            0 <= m < with_rule(s, q).len() ==> (#[trigger] with_rule(s, q)[m]).rule@ == q
                && s.contains(with_rule(s, q)[m]),
    decreases s.len(),
{
    if s.len() > 0 {
        lemma_with_rule_members(s.drop_last(), q);
        let g = with_rule(s.drop_last(), q);
        assert forall|m: int| 0 <= m < with_rule(s, q).len() implies (#[trigger] with_rule(
            s,
            q,
        )[m]).rule@ == q && s.contains(with_rule(s, q)[m]) by {
            if m < g.len() {
                assert(with_rule(s, q)[m] == g[m]);
                let w = choose|w: int| 0 <= w < s.drop_last().len() && s.drop_last()[w] == g[m];
                assert(s[w] == g[m]);
            } else {
                assert(with_rule(s, q)[m] == s.last());
                assert(s[s.len() - 1] == s.last());
            }
        }
    }
}

/// Plans the compute pass for `slices`: the slices are grouped by rule (in
/// order of first appearance), rules without a cached pipeline are skipped,
/// and each remaining group becomes one dispatch with its parameter records
/// and `ceil(max / 16)` workgroups per axis, one z-slot per slice.
pub fn plan_compute_pass<Id: Copy>(slices: &Vec<GpuGridSlice>, cache: &GpuPipelineCache<Id>) -> (r: Vec<
    DispatchPlan<Id>,
>)
    requires
        cache.wf(),
        forall|k: int|
            0 <= k < slices@.len() && cache@.dom().contains((#[trigger] slices@[k]).rule@)
                ==> slices@[k].size.x <= u32::MAX - 15 && slices@[k].size.y <= u32::MAX - 15,
    ensures
        ({
            let rs = cached_rules(rules_of(slices@), cache@);
            &&& r@.len() == rs.len()
            &&& forall|k: int|
                0 <= k < r@.len() ==> {
                    let g = with_rule(slices@, rs[k]);
                    &&& (#[trigger] r@[k]).rule@ == rs[k]
                    &&& r@[k].pipeline == cache@[rs[k]]
                    &&& r@[k].params@ == g.map_values(|s: GpuGridSlice| params_of(s))
                    &&& r@[k].workgroups == (
                        groups_for(max_width(g)),
                        groups_for(max_height(g)),
                        g.len() as u32,
                    )
                }
        }),
{
    let batches = batch_by_rule(slices);
    let ghost rules = rules_of(slices@);
    proof {
        lemma_rules_of(slices@);
    }
    let mut plans: Vec<DispatchPlan<Id>> = Vec::new();
    let nb = batches.len();
    for b in 0..nb
        invariant
            nb == batches@.len(),
            nb == rules.len(),
            rules == rules_of(slices@),
            cache.wf(),
            forall|q: Seq<char>| #[trigger] rules.contains(q) ==> with_rule(slices@, q).len() > 0,
            forall|k: int|
                0 <= k < nb ==> {
                    &&& (#[trigger] batches@[k]).rule@ == rules[k]
                    &&& batches@[k].slices@ == with_rule(slices@, rules[k])
                },
            forall|k: int|
                0 <= k < slices@.len() && cache@.dom().contains((#[trigger] slices@[k]).rule@)
                    ==> slices@[k].size.x <= u32::MAX - 15 && slices@[k].size.y <= u32::MAX - 15,
            plans@.len() == cached_rules(rules.take(b as int), cache@).len(),
            forall|k: int|
                0 <= k < plans@.len() ==> {
                    let q = cached_rules(rules.take(b as int), cache@)[k];
                    let g = with_rule(slices@, q);
                    &&& (#[trigger] plans@[k]).rule@ == q
                    &&& plans@[k].pipeline == cache@[q]
                    &&& plans@[k].params@ == g.map_values(|s: GpuGridSlice| params_of(s))
                    &&& plans@[k].workgroups == (
                        groups_for(max_width(g)),
                        groups_for(max_height(g)),
                        g.len() as u32,
                    )
                },
    {
        let ghost prev = rules.take(b as int);
        proof {
            assert(rules.take(b + 1).drop_last() =~= prev);
            assert(rules.take(b + 1).last() == rules[b as int]);
        }
        let batch = &batches[b];
        match cache.get(batch.rule.as_str()) {
            Some(pipeline) => {
                let ghost g = with_rule(slices@, rules[b as int]);
                proof {
                    assert(rules.contains(rules[b as int]));
                    lemma_with_rule_members(slices@, rules[b as int]);
                    assert forall|m: int| 0 <= m < g.len() implies #[trigger] g[m].size.x
                        <= u32::MAX - 15 && g[m].size.y <= u32::MAX - 15 by {
                        let w = choose|w: int| 0 <= w < slices@.len() && slices@[w] == g[m];
                        assert(cache@.dom().contains(slices@[w].rule@));
                    }
                    assert(sizes_roundable(batch.slices@));
                }
                let params = automaton_params(&batch.slices);
                let workgroups = dispatch_size(&batch.slices);
                proof {
                    assert(params@ =~= g.map_values(|s: GpuGridSlice| params_of(s)));
                }
                plans.push(
                    DispatchPlan { rule: batch.rule.clone(), pipeline, params, workgroups },
                );
            },
            None => {},
        }
    }
    proof {
        assert(rules.take(nb as int) =~= rules);
    }
    plans
}

/// Of a list of rules, `cached_rules` keeps exactly the rules with a cached
/// pipeline, each as often as in the list.
proof fn lemma_cached_rules<Id>(rules: Seq<Seq<char>>, cache: Map<Seq<char>, Id>)
    ensures
        forall|q: Seq<char>| #[trigger] cached_rules(rules, cache).contains(q) <==> (rules.contains(q)
            && cache.dom().contains(q)),
        rules.no_duplicates() ==> cached_rules(rules, cache).no_duplicates(),
    decreases rules.len(),
{
    if rules.len() > 0 {
        let d = rules.drop_last();
        lemma_cached_rules(d, cache);
        let r = cached_rules(d, cache);
        let x = rules.last();
        assert forall|q: Seq<char>| #[trigger] cached_rules(rules, cache).contains(q) <==> (
        rules.contains(q) && cache.dom().contains(q)) by {
            if cached_rules(rules, cache).contains(q) {
                let k = choose|k: int|
                    0 <= k < cached_rules(rules, cache).len() && cached_rules(rules, cache)[k] == q;
                if k < r.len() {
                    assert(r[k] == q);
                    assert(r.contains(q));
                    assert(d.contains(q) && cache.dom().contains(q));
                    let j = choose|j: int| 0 <= j < d.len() && d[j] == q;
                    assert(rules[j] == q);
                } else {
                    assert(cache.dom().contains(x));
                    assert(cached_rules(rules, cache) == r.push(x));
                    assert(q == x);
                    assert(rules[rules.len() - 1] == q);
                }
            }
            if rules.contains(q) && cache.dom().contains(q) {
                let j = choose|j: int| 0 <= j < rules.len() && rules[j] == q;
                if j < d.len() {
                    assert(d[j] == q);
                    assert(r.contains(q));
                    let k = choose|k: int| 0 <= k < r.len() && r[k] == q;
                    assert(cached_rules(rules, cache)[k] == q);
                } else {
                    assert(cached_rules(rules, cache)[r.len() as int] == q);
                }
            }
        }
        if rules.no_duplicates() {
            assert(d.no_duplicates()) by {
                assert forall|a: int, b: int| 0 <= a < d.len() && 0 <= b < d.len() && a != b implies d[a]
                    != d[b] by {
                    assert(d[a] == rules[a] && d[b] == rules[b]);
                }
            }
            if cache.dom().contains(x) {
                assert(!r.contains(x)) by {
                    if r.contains(x) {
                        let j = choose|j: int| 0 <= j < d.len() && d[j] == x;
                        assert(rules[j] == rules[rules.len() - 1]);
                    }
                }
                let c = cached_rules(rules, cache);
                assert forall|a: int, b: int| 0 <= a < c.len() && 0 <= b < c.len() && a != b implies c[a]
                    != c[b] by {
                    if a < r.len() && b < r.len() {
                        assert(c[a] == r[a] && c[b] == r[b]);
                    } else if a < r.len() {
                        assert(c[a] == r[a]);
                        assert(r.contains(r[a]));
                    } else {
                        assert(c[b] == r[b]);
                        assert(r.contains(r[b]));
                    }
                }
            }
        }
    }
}

/// The compute pass plans exactly the rules that step some slice and have a
/// cached pipeline, each once: a rule is planned if and only if some slice
/// is stepped by it and its pipeline is cached, and no rule is planned
/// twice.  (With [`plan_compute_pass`], one dispatch per such rule.)
pub proof fn lemma_planned_rules<Id>(s: Seq<GpuGridSlice>, cache: Map<Seq<char>, Id>)
    ensures
        forall|q: Seq<char>| #[trigger] cached_rules(rules_of(s), cache).contains(q) <==> ((exists|
            k: int,
        | 0 <= k < s.len() && (#[trigger] s[k]).rule@ == q) && cache.dom().contains(q)),
        cached_rules(rules_of(s), cache).no_duplicates(),
{
    lemma_rules_of(s);
    lemma_cached_rules(rules_of(s), cache);
    assert forall|q: Seq<char>| #[trigger] cached_rules(rules_of(s), cache).contains(q) <==> ((exists|
        k: int,
    | 0 <= k < s.len() && (#[trigger] s[k]).rule@ == q) && cache.dom().contains(q)) by {
        if rules_of(s).contains(q) {
            lemma_with_rule_members(s, q);
            let g = with_rule(s, q);
            assert(g[0].rule@ == q && s.contains(g[0]));
            let k = choose|k: int| 0 <= k < s.len() && s[k] == g[0];
            assert(s[k].rule@ == q);
        }
        if exists|k: int| 0 <= k < s.len() && (#[trigger] s[k]).rule@ == q {
            let k = choose|k: int| 0 <= k < s.len() && (#[trigger] s[k]).rule@ == q;
            lemma_every_slice_batched(s, k);
        }
    }
}

} // verus!
