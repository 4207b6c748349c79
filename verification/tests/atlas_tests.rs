use soul_engine::gpu_atlas::{AtlasAllocator, MAX_H, MAX_W};
use soul_engine::math::UVec2;
use soul_engine::renderer_atlas::AtlasAllocator as FlatAtlasAllocator;

fn overlaps(a: (u32, UVec2, UVec2), b: (u32, UVec2, UVec2)) -> bool {
    a.0 == b.0
        && a.1.x < b.1.x + b.2.x
        && b.1.x < a.1.x + a.2.x
        && a.1.y < b.1.y + b.2.y
        && b.1.y < a.1.y + a.2.y
}

#[test]
fn first_allocation_is_at_the_origin_of_layer_zero() {
    let mut a = AtlasAllocator::new();
    assert_eq!(a.allocate(UVec2::splat(256)), Some((0, UVec2::new(0, 0))));
}

#[test]
fn first_fit_follows_free_list_order() {
    let mut a = AtlasAllocator::new();
    let s = UVec2::splat(256);
    assert_eq!(a.allocate(s), Some((0, UVec2::new(0, 0))));
    // free list: right strip (256,0) 768x256, then lower part (0,256) 1024x768
    assert_eq!(a.allocate(s), Some((0, UVec2::new(256, 0))));
    // free list: lower part, then right strip (512,0) 512x256
    assert_eq!(a.allocate(s), Some((0, UVec2::new(0, 256))));
    assert_eq!(a.allocate(s), Some((0, UVec2::new(512, 0))));
}

#[test]
fn whole_atlas_then_full() {
    let mut a = AtlasAllocator::new();
    assert_eq!(a.allocate(UVec2::new(MAX_W, MAX_H)), Some((0, UVec2::new(0, 0))));
    assert_eq!(a.allocate(UVec2::new(1, 1)), None);
}

#[test]
fn oversized_request_fails_and_keeps_space() {
    let mut a = AtlasAllocator::new();
    assert_eq!(a.allocate(UVec2::new(MAX_W + 1, 1)), None);
    assert_eq!(a.allocate(UVec2::new(1, MAX_H + 1)), None);
    assert_eq!(a.allocate(UVec2::new(MAX_W, MAX_H)), Some((0, UVec2::new(0, 0))));
}

#[test]
fn zero_sized_request_takes_nothing() {
    let mut a = AtlasAllocator::new();
    assert_eq!(a.allocate(UVec2::new(0, 0)), Some((0, UVec2::new(0, 0))));
    assert_eq!(a.allocate(UVec2::new(MAX_W, MAX_H)), Some((0, UVec2::new(0, 0))));
}

#[test]
fn freed_rectangle_is_reused() {
    let mut a = AtlasAllocator::new();
    assert!(a.allocate(UVec2::new(MAX_W, MAX_H)).is_some());
    a.free(3, UVec2::new(10, 20), UVec2::new(30, 40));
    assert_eq!(a.allocate(UVec2::new(31, 1)), None);
    assert_eq!(a.allocate(UVec2::new(30, 40)), Some((3, UVec2::new(10, 20))));
}

#[test]
fn sixteen_slices_fill_the_atlas_without_overlap() {
    let mut a = AtlasAllocator::new();
    let s = UVec2::splat(256);
    let mut got: Vec<(u32, UVec2, UVec2)> = Vec::new();
    for _ in 0..16 {
        let (l, off) = a.allocate(s).expect("room left");
        got.push((l, off, s));
    }
    assert_eq!(a.allocate(s), None);
    for i in 0..got.len() {
        assert!(got[i].1.x + 256 <= MAX_W && got[i].1.y + 256 <= MAX_H);
        for j in 0..i {
            assert!(!overlaps(got[i], got[j]));
        }
    }
}

#[test]
fn flat_allocator_always_reports_layer_zero() {
    let mut a = FlatAtlasAllocator::new();
    let s = UVec2::splat(256);
    assert_eq!(a.allocate(s), Some((0, UVec2::new(0, 0))));
    assert_eq!(a.allocate(s), Some((0, UVec2::new(256, 0))));
    assert_eq!(a.allocate(s), Some((0, UVec2::new(0, 256))));
    a.free(7, UVec2::new(0, 0), UVec2::splat(256));
    // the layer given to `free` is ignored: the rectangle is reused on layer 0
    assert_eq!(a.allocate(UVec2::new(1024, 1024)), None);
}

#[test]
fn flat_allocator_fills_and_refuses() {
    let mut a = FlatAtlasAllocator::new();
    let s = UVec2::splat(512);
    let mut offs = Vec::new();
    for _ in 0..4 {
        offs.push(a.allocate(s).expect("room left").1);
    }
    assert_eq!(a.allocate(UVec2::new(1, 1)), None);
    offs.sort_by_key(|o| (o.y, o.x));
    assert_eq!(
        offs,
        vec![UVec2::new(0, 0), UVec2::new(512, 0), UVec2::new(0, 512), UVec2::new(512, 512)]
    );
}

#[test]
fn mixed_allocations_never_share_a_texel() {
    let sizes = [
        UVec2::new(300, 200),
        UVec2::new(100, 700),
        UVec2::new(512, 512),
        UVec2::new(1, 1),
        UVec2::new(700, 100),
        UVec2::new(256, 256),
        UVec2::new(1024, 1),
        UVec2::new(50, 900),
    ];
    for round in 0..2 {
        let mut got: Vec<(u32, UVec2, UVec2)> = Vec::new();
        let mut a = AtlasAllocator::new();
        let mut f = FlatAtlasAllocator::new();
        for s in sizes.iter().chain(sizes.iter()) {
            let r1 = a.allocate(*s);
            let r2 = f.allocate(*s);
            assert_eq!(r1, r2);
            if let Some((layer, off)) = r1 {
                assert_eq!(layer, 0);
                assert!(off.x + s.x <= MAX_W && off.y + s.y <= MAX_H);
                got.push((layer, off, *s));
            }
        }
        assert!(got.len() >= 4, "round {round}");
        for i in 0..got.len() {
            for j in 0..got.len() {
                if i != j {
                    assert!(!overlaps(got[i], got[j]), "{:?} {:?}", got[i], got[j]);
                }
            }
        }
    }
}

#[test]
fn reset_atlas_hands_out_the_corner_again() {
    let mut a = AtlasAllocator::new();
    assert_eq!(a.allocate(UVec2::new(256, 256)), Some((0, UVec2::new(0, 0))));
    assert_eq!(a.allocate(UVec2::new(256, 256)), Some((0, UVec2::new(256, 0))));
    a.reset();
    assert_eq!(a.allocate(UVec2::new(256, 256)), Some((0, UVec2::new(0, 0))));
}
