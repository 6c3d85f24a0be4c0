use palette::{Rat, RgbHue};
use palette::hues::{normalize_angle, normalize_angle_positive};

#[test]
fn normalize_angle_0_360() {
    let inp = vec![
        Rat::from_int(-1000),
        Rat::from_int(-900),
        Rat::new(-721, 2),
        Rat::from_int(-360),
        Rat::new(-719, 2),
        Rat::from_int(-240),
        Rat::new(-361, 2),
        Rat::from_int(-180),
        Rat::new(-359, 2),
        Rat::from_int(-90),
        Rat::new(-1, 2),
        Rat::from_int(0),
        Rat::new(1, 2),
        Rat::from_int(90),
        Rat::new(359, 2),
        Rat::from_int(180),
        Rat::new(361, 2),
        Rat::from_int(240),
        Rat::new(719, 2),
        Rat::from_int(360),
        Rat::new(721, 2),
        Rat::from_int(900),
        Rat::from_int(1000),
    ];

    let expected = vec![
        Rat::from_int(80),
        Rat::from_int(180),
        Rat::new(719, 2),
        Rat::from_int(0),
        Rat::new(1, 2),
        Rat::from_int(120),
        Rat::new(359, 2),
        Rat::from_int(180),
        Rat::new(361, 2),
        Rat::from_int(270),
        Rat::new(719, 2),
        Rat::from_int(0),
        Rat::new(1, 2),
        Rat::from_int(90),
        Rat::new(359, 2),
        Rat::from_int(180),
        Rat::new(361, 2),
        Rat::from_int(240),
        Rat::new(719, 2),
        Rat::from_int(0),
        Rat::new(1, 2),
        Rat::from_int(180),
        Rat::from_int(280),
    ];

    let result: Vec<Rat> = inp.iter().map(|x| normalize_angle_positive(*x)).collect();
    assert_eq!(result.len(), expected.len());
    for (res, exp) in result.iter().zip(expected.iter()) {
        assert_eq!(res, exp);
    }
}

#[test]
fn normalize_angle_180_180() {
    let inp = vec![
        Rat::from_int(-1000),
        Rat::from_int(-900),
        Rat::new(-721, 2),
        Rat::from_int(-360),
        Rat::new(-719, 2),
        Rat::from_int(-240),
        Rat::new(-361, 2),
        Rat::from_int(-180),
        Rat::new(-359, 2),
        Rat::from_int(-90),
        Rat::new(-1, 2),
        Rat::from_int(0),
        Rat::new(1, 2),
        Rat::from_int(90),
        Rat::new(359, 2),
        Rat::from_int(180),
        Rat::new(361, 2),
        Rat::from_int(240),
        Rat::new(719, 2),
        Rat::from_int(360),
        Rat::new(721, 2),
        Rat::from_int(900),
        Rat::from_int(1000),
    ];

    let expected = vec![
        Rat::from_int(80),
        Rat::from_int(180),
        Rat::new(-1, 2),
        Rat::from_int(0),
        Rat::new(1, 2),
        Rat::from_int(120),
        Rat::new(359, 2),
        Rat::from_int(180),
        Rat::new(-359, 2),
        Rat::from_int(-90),
        Rat::new(-1, 2),
        Rat::from_int(0),
        Rat::new(1, 2),
        Rat::from_int(90),
        Rat::new(359, 2),
        Rat::from_int(180),
        Rat::new(-359, 2),
        Rat::from_int(-120),
        Rat::new(-1, 2),
        Rat::from_int(0),
        Rat::new(1, 2),
        Rat::from_int(180),
        Rat::from_int(-80),
    ];

    let result: Vec<Rat> = inp.iter().map(|x| normalize_angle(*x)).collect();
    assert_eq!(result.len(), expected.len());
    for (res, exp) in result.iter().zip(expected.iter()) {
        assert_eq!(res, exp);
    }
}

#[test]
fn float_conversion() {
    for i in -180..180_i64 {
        let hue = RgbHue::from_degrees(Rat::from_int(4 * i));

        let degs = hue.to_degrees();
        assert!(Rat::from_int(-180).lt(&degs) && degs.le(&Rat::from_int(180)));

        let pos_degs = hue.to_positive_degrees();
        assert!(Rat::from_int(0).le(&pos_degs) && pos_degs.lt(&Rat::from_int(360)));

        assert_eq!(
            RgbHue::from_degrees(degs).to_degrees(),
            RgbHue::from_degrees(pos_degs).to_degrees()
        );
    }
}

#[test]
fn normalization_preserves_whole_turns() {
    // The two normalizations differ from the input by exact whole turns.
    let deg = Rat::new(1531, 2);
    let centered = normalize_angle(deg);
    let positive = normalize_angle_positive(deg);
    assert_eq!(centered, Rat::new(91, 2));
    assert_eq!(positive, Rat::new(91, 2));
    let deg = Rat::new(-3, 2);
    assert_eq!(normalize_angle(deg), Rat::new(-3, 2));
    assert_eq!(normalize_angle_positive(deg), Rat::new(717, 2));
}
