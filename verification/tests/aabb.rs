use pathtracer::aabb::{slab_clip, SlabInterval};

// An order key over all non-NaN doubles: flip the sign bit of
// non-negative values, complement negative ones (zeros identified first).
fn key(t: f64) -> u64 {
    assert!(!t.is_nan());
    let t = t + 0.0;
    let bits = t.to_bits();
    if bits & 0x8000_0000_0000_0000 != 0 {
        !bits
    } else {
        bits | 0x8000_0000_0000_0000
    }
}

#[test]
fn single_axis_overlap_accepts() {
    let axes = vec![SlabInterval { enter: 5, exit: 10 }];
    assert!(slab_clip(&axes, 1, 100));
}

#[test]
fn single_axis_disjoint_rejects() {
    let axes = vec![SlabInterval { enter: 50, exit: 60 }];
    assert!(!slab_clip(&axes, 1, 40));
}

#[test]
fn touching_intervals_reject() {
    // The exit must lie strictly after the entry: a tightened interval
    // whose ends meet is empty.
    let axes = vec![SlabInterval { enter: 10, exit: 10 }];
    assert!(!slab_clip(&axes, 1, 100));
    // An entry exactly at the lower bound still leaves (5, 6) nonempty.
    let at_bound = vec![SlabInterval { enter: 5, exit: 20 }];
    assert!(slab_clip(&at_bound, 5, 6));
}

#[test]
fn axes_tighten_jointly() {
    // Each axis overlaps the start interval, but their intersection is
    // empty: the scan rejects at the second axis.
    let axes = vec![
        SlabInterval { enter: 10, exit: 20 },
        SlabInterval { enter: 20, exit: 30 },
    ];
    assert!(!slab_clip(&axes, 1, 100));
    let overlapping = vec![
        SlabInterval { enter: 10, exit: 21 },
        SlabInterval { enter: 20, exit: 30 },
    ];
    assert!(slab_clip(&overlapping, 1, 100));
}

#[test]
fn no_axes_accept_vacuously() {
    let axes: Vec<SlabInterval> = Vec::new();
    assert!(slab_clip(&axes, 1, 100));
}

#[test]
fn keyed_box_hit_head_on() {
    // A unit cube around the origin, a ray from z = -5 toward it: the
    // z-axis slab runs from t = 4 to t = 6, the other two never tighten
    // (entry at minus infinity, exit at plus infinity).
    let axes = vec![
        SlabInterval { enter: key(f64::NEG_INFINITY), exit: key(f64::INFINITY) },
        SlabInterval { enter: key(f64::NEG_INFINITY), exit: key(f64::INFINITY) },
        SlabInterval { enter: key(4.0), exit: key(6.0) },
    ];
    assert!(slab_clip(&axes, key(0.001), key(f64::INFINITY)));
    // The same box is missed once the search interval ends before it.
    assert!(!slab_clip(&axes, key(0.001), key(4.0)));
}

#[test]
fn keyed_box_behind_the_ray_misses() {
    // Both crossings at negative t: the box lies behind the ray.
    let axes = vec![
        SlabInterval { enter: key(f64::NEG_INFINITY), exit: key(f64::INFINITY) },
        SlabInterval { enter: key(f64::NEG_INFINITY), exit: key(f64::INFINITY) },
        SlabInterval { enter: key(-6.0), exit: key(-4.0) },
    ];
    assert!(!slab_clip(&axes, key(0.001), key(f64::INFINITY)));
}
