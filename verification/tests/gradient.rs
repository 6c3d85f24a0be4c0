use palette::gradient::Range;
use palette::{Gradient, LinSrgb, Luma, Rat};

fn rgb(red: Rat, green: Rat, blue: Rat) -> LinSrgb {
    LinSrgb::new(red, green, blue)
}

fn collect_front(take: &mut palette::gradient::Take<'_, LinSrgb>, n: usize) -> Vec<LinSrgb> {
    let mut out = Vec::new();
    for _ in 0..n {
        match take.next() {
            Some(color) => out.push(color),
            None => break,
        }
    }
    out
}

fn collect_back(take: &mut palette::gradient::Take<'_, LinSrgb>, n: usize) -> Vec<LinSrgb> {
    let mut out = Vec::new();
    for _ in 0..n {
        match take.next_back() {
            Some(color) => out.push(color),
            None => break,
        }
    }
    out
}

#[test]
fn range_clamp() {
    let range = Range::new(Some(Rat::from_int(0)), Some(Rat::from_int(1)));
    assert_eq!(range.clamp(&Rat::from_int(-1)), Rat::from_int(0));
    assert_eq!(range.clamp(&Rat::from_int(2)), Rat::from_int(1));
    assert_eq!(range.clamp(&Rat::new(1, 2)), Rat::new(1, 2));
}

#[test]
fn range_constrain() {
    let range = Range::new(Some(Rat::from_int(0)), Some(Rat::from_int(1)));
    assert_eq!(
        range.constrain(&Range::new(Some(Rat::from_int(-3)), Some(Rat::from_int(-5)))),
        Range::new(Some(Rat::from_int(0)), Some(Rat::from_int(0)))
    );
    assert_eq!(
        range.constrain(&Range::new(Some(Rat::from_int(-3)), Some(Rat::new(4, 5)))),
        Range::new(Some(Rat::from_int(0)), Some(Rat::new(4, 5)))
    );
    assert_eq!(
        range.constrain(&Range::new(Some(Rat::from_int(3)), Some(Rat::from_int(5)))),
        Range::new(Some(Rat::from_int(1)), Some(Rat::from_int(1)))
    );
    assert_eq!(
        range.constrain(&Range::new(Some(Rat::new(1, 5)), Some(Rat::from_int(5)))),
        Range::new(Some(Rat::new(1, 5)), Some(Rat::from_int(1)))
    );
    assert_eq!(
        range.constrain(&Range::new(Some(Rat::new(1, 5)), Some(Rat::new(4, 5)))),
        Range::new(Some(Rat::new(1, 5)), Some(Rat::new(4, 5)))
    );
}

#[test]
fn range_inclusive_and_to_inclusive() {
    // An inclusive upper end keeps the literal endpoint value.
    let r1 = Range::new(Some(Rat::from_int(0)), Some(Rat::from_int(1)));
    assert_eq!(r1.to, Some(Rat::from_int(1)));

    // Slicing up to (and including) 0.5 matches resampling the full
    // gradient at the same positions.
    let g1 = Gradient::new(vec![
        rgb(Rat::from_int(1), Rat::from_int(0), Rat::from_int(0)),
        rgb(Rat::from_int(0), Rat::from_int(0), Rat::from_int(1)),
    ]);
    let g2 = g1.slice(Range::new(None, Some(Rat::new(1, 2))));
    let v1 = collect_front(&mut g1.take(9), 5);
    let v2 = collect_front(&mut g2.take(5), 5);
    for (t1, t2) in v1.iter().zip(v2.iter()) {
        assert_eq!(t1, t2);
    }
}

#[test]
fn simple_slice() {
    let g1 = Gradient::new(vec![
        rgb(Rat::from_int(1), Rat::from_int(0), Rat::from_int(0)),
        rgb(Rat::from_int(0), Rat::from_int(0), Rat::from_int(1)),
    ]);
    let g2 = g1.slice(Range::new(None, Some(Rat::new(1, 2))));

    let v1 = collect_front(&mut g1.take(9), 5);
    let v2 = collect_front(&mut g2.take(5), 5);
    assert_eq!(v1.len(), 5);
    assert_eq!(v2.len(), 5);
    for (t1, t2) in v1.iter().zip(v2.iter()) {
        assert_eq!(t1, t2);
    }
}

#[test]
fn iter_rev_eq_rev_iter() {
    let g = Gradient::new(vec![
        rgb(Rat::from_int(1), Rat::from_int(0), Rat::from_int(0)),
        rgb(Rat::from_int(0), Rat::from_int(0), Rat::from_int(1)),
    ]);

    let mut v1 = collect_front(&mut g.take(10), 10);
    v1.reverse();
    let v2 = collect_back(&mut g.take(10), 10);
    assert_eq!(v1.len(), 10);
    for (t1, t2) in v1.iter().zip(v2.iter()) {
        assert_eq!(t1, t2);
    }
    // A single sample walked backward yields the same (well-defined) value.
    let mut v1 = collect_front(&mut g.take(1), 1);
    v1.reverse();
    let v2 = collect_back(&mut g.take(1), 1);
    assert_eq!(v1.len(), 1);
    for (t1, t2) in v1.iter().zip(v2.iter()) {
        assert_eq!(t1, t2);
    }
}

#[test]
fn inclusive_take() {
    let g = Gradient::new(vec![
        rgb(Rat::from_int(1), Rat::from_int(1), Rat::from_int(0)),
        rgb(Rat::from_int(0), Rat::from_int(0), Rat::from_int(1)),
    ]);

    // A walk over zero samples is exhausted from the start.
    let v1 = collect_front(&mut g.take(0), 10);
    assert_eq!(v1.len(), 0);
    // A single sample is the lower gradient boundary.
    let v1 = collect_front(&mut g.take(1), 10);
    assert_eq!(v1.len(), 1);
    assert_eq!(v1[0], rgb(Rat::from_int(1), Rat::from_int(1), Rat::from_int(0)));
    // The walk includes the upper gradient boundary.
    let v1 = collect_front(&mut g.take(5), 10);
    assert_eq!(v1.len(), 5);
    assert_eq!(v1[0], rgb(Rat::from_int(1), Rat::from_int(1), Rat::from_int(0)));
    assert_eq!(v1[4], rgb(Rat::from_int(0), Rat::from_int(0), Rat::from_int(1)));
}

#[test]
fn two_point_blend_exact() {
    // Two values at positions 0 and 1; every lookup is the exact affine
    // blend, and out-of-domain positions clamp to the ends.
    let a = Luma::new(Rat::from_int(2));
    let b = Luma::new(Rat::from_int(6));
    let g = Gradient::new(vec![a, b]);

    assert_eq!(g.get(&Rat::new(1, 4)), Luma::new(Rat::from_int(3)));
    assert_eq!(g.get(&Rat::from_int(-5)), a);
    assert_eq!(g.get(&Rat::from_int(5)), b);

    let mut take = g.take(5);
    let mut v = Vec::new();
    while let Some(value) = take.next() {
        v.push(value);
    }
    assert_eq!(
        v,
        vec![
            a,
            Luma::new(Rat::from_int(3)),
            Luma::new(Rat::from_int(4)),
            Luma::new(Rat::from_int(5)),
            b,
        ]
    );
}

#[test]
fn evenly_spaced_positions_hit_inputs() {
    let colors = vec![
        Luma::new(Rat::from_int(10)),
        Luma::new(Rat::from_int(-4)),
        Luma::new(Rat::new(7, 3)),
        Luma::new(Rat::from_int(0)),
        Luma::new(Rat::from_int(255)),
    ];
    let g = Gradient::new(colors.clone());
    let (min, max) = g.domain();
    assert_eq!(min, Rat::from_int(0));
    assert_eq!(max, Rat::from_int(1));
    for (i, color) in colors.iter().enumerate() {
        assert_eq!(g.get(&Rat::new(i as i64, 4)), *color);
    }
}

#[test]
fn with_domain_custom_positions() {
    let g = Gradient::with_domain(vec![
        (Rat::from_int(-10), Luma::new(Rat::from_int(0))),
        (Rat::from_int(0), Luma::new(Rat::from_int(100))),
        (Rat::from_int(40), Luma::new(Rat::from_int(20))),
    ]);
    let (min, max) = g.domain();
    assert_eq!(min, Rat::from_int(-10));
    assert_eq!(max, Rat::from_int(40));
    // Halfway between -10 and 0.
    assert_eq!(g.get(&Rat::from_int(-5)), Luma::new(Rat::from_int(50)));
    // A quarter of the way between 0 and 40.
    assert_eq!(g.get(&Rat::from_int(10)), Luma::new(Rat::from_int(80)));
    // Exactly on a control point.
    assert_eq!(g.get(&Rat::from_int(0)), Luma::new(Rat::from_int(100)));
}

#[test]
fn size_hint_is_exact_from_both_ends() {
    let g = Gradient::new(vec![
        Luma::new(Rat::from_int(0)),
        Luma::new(Rat::from_int(8)),
    ]);
    let mut take = g.take(4);
    assert_eq!(take.size_hint(), (4, Some(4)));
    take.next();
    assert_eq!(take.size_hint(), (3, Some(3)));
    take.next_back();
    assert_eq!(take.size_hint(), (2, Some(2)));
    take.next();
    take.next_back();
    assert_eq!(take.size_hint(), (0, Some(0)));
    assert_eq!(take.next(), None);
    assert_eq!(take.next_back(), None);
}

#[test]
fn both_ends_meet_in_the_middle() {
    let g = Gradient::new(vec![
        Luma::new(Rat::from_int(0)),
        Luma::new(Rat::from_int(8)),
    ]);
    // Consuming alternately from both ends enumerates the same five samples
    // as a pure forward walk.
    let mut take = g.take(5);
    let mut front = Vec::new();
    let mut back = Vec::new();
    loop {
        match take.next() {
            Some(value) => front.push(value),
            None => break,
        }
        match take.next_back() {
            Some(value) => back.push(value),
            None => break,
        }
    }
    back.reverse();
    front.extend(back);
    let mut all = g.take(5);
    let mut expected = Vec::new();
    while let Some(value) = all.next() {
        expected.push(value);
    }
    assert_eq!(front, expected);
}

#[test]
fn slice_domain_falls_back_to_parent() {
    let g = Gradient::new(vec![
        Luma::new(Rat::from_int(1)),
        Luma::new(Rat::from_int(2)),
    ]);
    let s = g.slice(Range::new(Some(Rat::new(1, 4)), None));
    let (min, max) = s.domain();
    assert_eq!(min, Rat::new(1, 4));
    assert_eq!(max, Rat::from_int(1));

    let s2 = s.slice(Range::new(None, Some(Rat::new(1, 2))));
    let (min2, max2) = s2.domain();
    assert_eq!(min2, Rat::new(1, 4));
    assert_eq!(max2, Rat::new(1, 2));
}

#[test]
fn slice_clamps_into_its_range() {
    let g = Gradient::new(vec![
        Luma::new(Rat::from_int(0)),
        Luma::new(Rat::from_int(8)),
    ]);
    let s = g.slice(Range::new(Some(Rat::new(1, 4)), Some(Rat::new(3, 4))));
    // Outside the slice's domain, the value at the nearest slice end wins.
    assert_eq!(s.get(&Rat::from_int(0)), Luma::new(Rat::from_int(2)));
    assert_eq!(s.get(&Rat::from_int(1)), Luma::new(Rat::from_int(6)));
    // Inside, the slice reads straight through to the gradient.
    assert_eq!(s.get(&Rat::new(1, 2)), Luma::new(Rat::from_int(4)));
}
