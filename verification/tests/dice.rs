use rogue::dice::{DamageRoll, Dice};

#[test]
fn parse_single() {
    let d: Dice = "1x8".parse().unwrap();
    assert_eq!(d, Dice::new(1, 8));
    assert_eq!(d.max(), 8);
    assert_eq!((d.doubled_average() as f32) / 2.0, 4.5);
}

#[test]
fn parse_multi() {
    let r: DamageRoll = "2x4/1x6".parse().unwrap();
    assert_eq!(r.terms(), &[Dice::new(2, 4), Dice::new(1, 6)]);
    assert_eq!((r.doubled_average() as f32) / 2.0, 5.0 + 3.5);
}

#[test]
fn roundtrip_string() {
    let r: DamageRoll = "3x10/1x8".parse().unwrap();
    let s: String = r.clone().into();
    assert_eq!(s, "3x10/1x8");
}

#[test]
fn rejects_garbage() {
    assert!("hello".parse::<DamageRoll>().is_err());
    assert!("".parse::<DamageRoll>().is_err());
}

#[test]
fn roll_is_bounded() {
    let d = Dice::new(2, 6);
    // Constant rng returning the max face.
    assert_eq!(d.roll_with(|s| s), 12);
    assert_eq!(d.roll_with(|_| 1), 2);
}

#[test]
fn parse_tolerates_spaces_and_either_separator() {
    let d: Dice = " 3 X 4 ".parse().unwrap();
    assert_eq!(d, Dice::new(3, 4));
    let d: Dice = "2d6".parse().unwrap();
    assert_eq!(d, Dice::new(2, 6));
    let r: DamageRoll = "1x2 / 3x4".parse().unwrap();
    assert_eq!(r.terms(), &[Dice::new(1, 2), Dice::new(3, 4)]);
}

#[test]
fn parse_errors_name_the_bad_term() {
    let e = "x".parse::<Dice>().unwrap_err();
    assert!(e.0.contains("x"));
    let e = "2x4/zz".parse::<DamageRoll>().unwrap_err();
    assert_eq!(e.0, "zz");
    assert!("2x".parse::<Dice>().is_err());
    assert!("/".parse::<DamageRoll>().is_err());
    // Empty terms between separators are skipped.
    let r: DamageRoll = "2x4/ /".parse().unwrap();
    assert_eq!(r.terms(), &[Dice::new(2, 4)]);
}

#[test]
fn dice_text_and_bounds() {
    let d = Dice::new(4, 6);
    assert_eq!(d.to_text(), "4x6");
    assert_eq!(d.max(), 24);
    assert_eq!(d.doubled_average(), 28);
    let r = DamageRoll(vec![Dice::new(1, 3), Dice::new(2, 5)]);
    assert_eq!(r.to_text(), "1x3/2x5");
    let back: DamageRoll = r.to_text().parse().unwrap();
    assert_eq!(back, r);
}

#[test]
fn roll_with_passes_the_sides() {
    let d = Dice::new(3, 7);
    assert_eq!(d.roll_with(|s| s - 2), 15);
}
