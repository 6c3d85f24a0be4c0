use palette::{Alpha, CamHue, Jch, Luma, Rat};

#[test]
fn check_min_max_components() {
    assert_eq!(Jch::min_j(), Rat::from_int(0));
    assert_eq!(Jch::max_j(), Rat::from_int(100));
    assert_eq!(Jch::min_chroma(), Rat::from_int(0));
    assert_eq!(Jch::max_chroma(), Rat::from_int(128));
}

#[test]
fn jch_alpha_component_round_trip() {
    let hue = CamHue::from_degrees(Rat::new(1, 10));
    let color = Alpha::<Jch, Rat>::new(Rat::new(3, 10), Rat::new(4, 5), hue, Rat::from_int(1));
    let (j, chroma, h, alpha) = color.into_components();
    assert_eq!(j, Rat::new(3, 10));
    assert_eq!(chroma, Rat::new(4, 5));
    assert_eq!(h.to_raw_degrees(), Rat::new(1, 10));
    assert_eq!(alpha, Rat::from_int(1));

    let back = Alpha::<Jch, Rat>::from_components((j, chroma, h, alpha));
    assert_eq!(back.color.j, color.color.j);
    assert_eq!(back.color.chroma, color.color.chroma);
    assert_eq!(back.color.hue.to_raw_degrees(), color.color.hue.to_raw_degrees());
    assert_eq!(back.alpha, color.alpha);
}

#[test]
fn luma_alpha_component_round_trip() {
    let color = Alpha::<Luma, Rat>::new(Rat::new(3, 10), Rat::new(1, 2));
    let (luma, alpha) = color.into_components();
    assert_eq!(luma, Rat::new(3, 10));
    assert_eq!(alpha, Rat::new(1, 2));
    let back = Alpha::<Luma, Rat>::from_components((luma, alpha));
    assert_eq!(back.color, Luma::new(Rat::new(3, 10)));
    assert_eq!(back.alpha, Rat::new(1, 2));
}

#[test]
fn rat_canonical_form() {
    // Construction reduces to lowest terms, so equal values are equal
    // representations.
    assert_eq!(Rat::new(2, 4), Rat::new(1, 2));
    assert_eq!(Rat::new(-6, 4), Rat::new(-3, 2));
    assert_eq!(Rat::new(0, 7), Rat::from_int(0));
    assert_eq!(Rat::new(1, 2).num(), 1);
    assert_eq!(Rat::new(1, 2).den(), 2);
    assert_eq!(Rat::new(-10, 4).num(), -5);
    assert_eq!(Rat::new(-10, 4).den(), 2);
}

#[test]
fn rat_exact_arithmetic() {
    let third = Rat::new(1, 3);
    let sixth = Rat::new(1, 6);
    assert_eq!(third.add(&sixth), Rat::new(1, 2));
    assert_eq!(third.sub(&sixth), Rat::new(1, 6));
    assert_eq!(third.mul(&sixth), Rat::new(1, 18));
    assert_eq!(third.div(&sixth), Rat::from_int(2));
    assert_eq!(Rat::new(1, 2).div(&Rat::from_int(-2)), Rat::new(-1, 4));
    assert!(sixth.lt(&third));
    assert!(sixth.le(&sixth));
    assert!(!third.lt(&third));
}
