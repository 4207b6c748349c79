use soul_engine::compute::plan_compute_pass;
use soul_engine::gpu::{
    automaton_params, batch_by_rule, dispatch_size, slice_for_new_automaton, AutomatonParams,
    FrameParity, GpuGridSlice, DEFAULT_RULE_BITS, NEW_SLICE_SIDE,
};
use soul_engine::gpu_atlas::AtlasAllocator;
use soul_engine::math::UVec2;
use soul_engine::pipelines::GpuPipelineCache;

fn slice(rule: &str, w: u32, h: u32, layer: u32) -> GpuGridSlice {
    GpuGridSlice {
        layer,
        offset: UVec2::new(w / 2, h / 3),
        size: UVec2::new(w, h),
        rule: rule.to_string(),
        rule_bits: w + h,
    }
}

#[test]
fn new_automaton_gets_a_life_slice() {
    let mut atlas = AtlasAllocator::new();
    let s = slice_for_new_automaton(&mut atlas).expect("atlas has room");
    assert_eq!(s.layer, 0);
    assert_eq!(s.offset, UVec2::new(0, 0));
    assert_eq!(s.size, UVec2::splat(NEW_SLICE_SIDE));
    assert_eq!(s.rule, "life");
    assert_eq!(s.rule_bits, 0b0001_1000);
    assert_eq!(DEFAULT_RULE_BITS, 24);
    let s2 = slice_for_new_automaton(&mut atlas).expect("atlas has room");
    assert_eq!(s2.offset, UVec2::new(256, 0));
}

#[test]
fn atlas_full_after_sixteen_automata() {
    let mut atlas = AtlasAllocator::new();
    for _ in 0..16 {
        assert!(slice_for_new_automaton(&mut atlas).is_some());
    }
    assert!(slice_for_new_automaton(&mut atlas).is_none());
}

#[test]
fn parity_flips() {
    let mut p = FrameParity::new();
    assert!(!p.0);
    assert_eq!(p.as_u32(), 0);
    p.flip();
    assert!(p.0);
    assert_eq!(p.as_u32(), 1);
    p.flip();
    assert!(!p.0);
}

#[test]
fn params_copy_slice_fields() {
    let v = vec![slice("a", 10, 20, 3), slice("b", 7, 9, 1)];
    let p = automaton_params(&v);
    assert_eq!(
        p,
        vec![
            AutomatonParams { size_x: 10, size_y: 20, layer: 3, rule: 30, offset_x: 5, offset_y: 6 },
            AutomatonParams { size_x: 7, size_y: 9, layer: 1, rule: 16, offset_x: 3, offset_y: 3 },
        ]
    );
}

#[test]
fn dispatch_covers_largest_slice() {
    let v = vec![slice("a", 17, 5, 0), slice("a", 3, 40, 0)];
    assert_eq!(dispatch_size(&v), (2, 3, 2));
    let one = vec![slice("a", 16, 16, 0)];
    assert_eq!(dispatch_size(&one), (1, 1, 1));
    let big = vec![slice("a", u32::MAX - 15, 1, 0)];
    assert_eq!(dispatch_size(&big), (0x0FFF_FFFF, 1, 1));
}

#[test]
fn batches_group_by_first_appearance() {
    let v = vec![slice("life", 1, 1, 0), slice("lenia", 2, 2, 0), slice("life", 3, 3, 0)];
    let b = batch_by_rule(&v);
    assert_eq!(b.len(), 2);
    assert_eq!(b[0].rule, "life");
    assert_eq!(b[0].slices.iter().map(|s| s.size.x).collect::<Vec<_>>(), vec![1, 3]);
    assert_eq!(b[1].rule, "lenia");
    assert_eq!(b[1].slices.iter().map(|s| s.size.x).collect::<Vec<_>>(), vec![2]);
    assert!(batch_by_rule(&Vec::new()).is_empty());
}

#[test]
fn cache_read_after_write() {
    let mut c: GpuPipelineCache<u32> = GpuPipelineCache::new();
    assert_eq!(c.get("life"), None);
    c.insert("life", 7);
    c.insert("lenia", 9);
    assert_eq!(c.get("life"), Some(7));
    assert_eq!(c.get("lenia"), Some(9));
    c.insert("life", 11);
    assert_eq!(c.get("life"), Some(11));
    assert_eq!(c.get("lenia"), Some(9));
    assert_eq!(c.get("other"), None);
}

#[test]
fn plan_skips_rules_without_pipeline() {
    let v = vec![
        slice("life", 32, 16, 0),
        slice("lenia", 8, 8, 1),
        slice("life", 16, 48, 2),
        slice("wire", 1, 1, 0),
    ];
    let mut c: GpuPipelineCache<u32> = GpuPipelineCache::new();
    c.insert("wire", 5);
    c.insert("life", 4);
    let plans = plan_compute_pass(&v, &c);
    assert_eq!(plans.len(), 2);
    assert_eq!(plans[0].rule, "life");
    assert_eq!(plans[0].pipeline, 4);
    assert_eq!(plans[0].workgroups, (2, 3, 2));
    assert_eq!(plans[0].params.len(), 2);
    assert_eq!(plans[0].params[1].layer, 2);
    assert_eq!(plans[1].rule, "wire");
    assert_eq!(plans[1].pipeline, 5);
    assert_eq!(plans[1].workgroups, (1, 1, 1));
    let empty: GpuPipelineCache<u32> = GpuPipelineCache::new();
    assert!(plan_compute_pass(&v, &empty).is_empty());
}

#[test]
fn parity_reads_pong_after_an_odd_number_of_extracts() {
    let mut p = FrameParity::new();
    for k in 1..=7u32 {
        p.flip();
        assert_eq!(p.0, k % 2 == 1);
        assert_eq!(p.as_u32(), k % 2);
    }
}

#[test]
fn pipeline_created_once_then_reused() {
    let mut cache: GpuPipelineCache<u32> = GpuPipelineCache::new();
    let mut made = 0;
    let a = cache.get_or_create("life", || {
        made += 1;
        7
    });
    assert_eq!(a, 7);
    let b = cache.get_or_create("life", || 99);
    assert_eq!(b, 7);
    let c = cache.get_or_create("lenia", || 3);
    assert_eq!(c, 3);
    assert_eq!(made, 1);
    assert_eq!(cache.get("life"), Some(7));
    assert_eq!(cache.get("lenia"), Some(3));
}

#[test]
fn new_automaton_after_reset_gets_the_corner() {
    let mut atlas = AtlasAllocator::new();
    let _ = slice_for_new_automaton(&mut atlas);
    let second = slice_for_new_automaton(&mut atlas).unwrap();
    assert_eq!(second.offset, UVec2::new(256, 0));
    atlas.reset();
    let again = slice_for_new_automaton(&mut atlas).unwrap();
    assert_eq!((again.layer, again.offset), (0, UVec2::new(0, 0)));
}

#[test]
fn cache_hit_never_runs_create() {
    let mut cache: GpuPipelineCache<u32> = GpuPipelineCache::new();
    cache.insert("life", 4);
    let id = cache.get_or_create("life", || panic!("a cached rule must not build a pipeline"));
    assert_eq!(id, 4);
    let mut runs = 0;
    let first = cache.get_or_create("lenia", || {
        runs += 1;
        9
    });
    let second = cache.get_or_create("lenia", || panic!("built twice"));
    assert_eq!((first, second, runs), (9, 9, 1));
}
