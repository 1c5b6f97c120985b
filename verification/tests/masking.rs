use policyai::masking::MaskGenerator;

#[test]
fn first_ten_masks() {
    let mut masks = MaskGenerator::default();
    assert_eq!("fpXHcC", masks.generate());
    assert_eq!("pgXrqF", masks.generate());
    assert_eq!("fJpQVm", masks.generate());
    assert_eq!("vFRWmj", masks.generate());
    assert_eq!("rfwwgq", masks.generate());
    assert_eq!("gpjCvp", masks.generate());
    assert_eq!("ccpjVG", masks.generate());
    assert_eq!("hMmmFp", masks.generate());
    assert_eq!("pFFHvc", masks.generate());
    assert_eq!("jrGjMc", masks.generate());
}

#[test]
fn at_least_one_thousand_policy_actions() {
    let mut masks = MaskGenerator::default();
    let mut seen: Vec<String> = Vec::new();
    for _ in 0..1024 {
        let mask = masks.generate();
        assert!(!seen.contains(&mask));
        let c = mask.chars().next().unwrap();
        assert!(c.is_lowercase());
        seen.push(mask);
    }
}

#[test]
fn masks_have_six_letters() {
    let mut masks = MaskGenerator::new();
    for _ in 0..50 {
        let mask = masks.generate();
        assert_eq!(mask.chars().count(), 6);
        assert!(mask.chars().all(|c| c.is_ascii_alphabetic()));
    }
}

#[test]
fn masks_are_reproducible_across_generators() {
    let mut a = MaskGenerator::new();
    let mut b = MaskGenerator::new();
    let mut c = MaskGenerator::default();
    for _ in 0..200 {
        let m = a.generate();
        assert_eq!(m, b.generate());
        assert_eq!(m, c.generate());
    }
}
