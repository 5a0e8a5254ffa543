use lau_evolution::AgeCategory;

#[test]
fn age_category_infant() {
    assert_eq!(AgeCategory::from_ticks(0), AgeCategory::Infant);
    assert_eq!(AgeCategory::from_ticks(999), AgeCategory::Infant);
}

#[test]
fn age_category_child() {
    assert_eq!(AgeCategory::from_ticks(1_000), AgeCategory::Child);
    assert_eq!(AgeCategory::from_ticks(4_999), AgeCategory::Child);
}

#[test]
fn age_category_teen() {
    assert_eq!(AgeCategory::from_ticks(5_000), AgeCategory::Teen);
    assert_eq!(AgeCategory::from_ticks(19_999), AgeCategory::Teen);
}

#[test]
fn age_category_mature() {
    assert_eq!(AgeCategory::from_ticks(20_000), AgeCategory::Mature);
    assert_eq!(AgeCategory::from_ticks(99_999), AgeCategory::Mature);
}

#[test]
fn age_category_ancient() {
    assert_eq!(AgeCategory::from_ticks(100_000), AgeCategory::Ancient);
    assert_eq!(AgeCategory::from_ticks(999_999), AgeCategory::Ancient);
}

#[test]
fn age_category_extreme_ticks() {
    assert_eq!(AgeCategory::from_ticks(u64::MAX), AgeCategory::Ancient);
}

fn rank(c: AgeCategory) -> u8 {
    match c {
        AgeCategory::Infant => 0,
        AgeCategory::Child => 1,
        AgeCategory::Teen => 2,
        AgeCategory::Mature => 3,
        AgeCategory::Ancient => 4,
    }
}

#[test]
fn age_category_never_goes_back() {
    let ticks = [0u64, 1, 999, 1_000, 4_999, 5_000, 19_999, 20_000, 99_999, 100_000, 5_000_000];
    for w in ticks.windows(2) {
        assert!(rank(AgeCategory::from_ticks(w[0])) <= rank(AgeCategory::from_ticks(w[1])));
    }
}
