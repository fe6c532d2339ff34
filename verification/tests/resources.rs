use heroes_of_rust::engine::resources::{InsufficientFunds, ResourceBag};

#[test]
fn add_resources() {
    let mut bag = ResourceBag::gold(100);
    bag.add(&ResourceBag::gold(50));
    assert_eq!(bag.gold, 150);
}

#[test]
fn subtract_sufficient() {
    let mut bag = ResourceBag::gold(100);
    assert!(bag.subtract(&ResourceBag::gold(40)).is_ok());
    assert_eq!(bag.gold, 60);
}

#[test]
fn subtract_insufficient() {
    let mut bag = ResourceBag::gold(10);
    assert_eq!(bag.subtract(&ResourceBag::gold(20)), Err(InsufficientFunds));
    assert_eq!(bag.gold, 10);
}

#[test]
fn can_afford() {
    let bag = ResourceBag::gold(100);
    assert!(bag.can_afford(&ResourceBag::gold(100)));
    assert!(!bag.can_afford(&ResourceBag::gold(101)));
}

#[test]
fn default_bag_is_empty() {
    assert_eq!(ResourceBag::default().gold, 0);
}

#[test]
fn subtract_exact_amount_leaves_nothing() {
    let mut bag = ResourceBag::gold(40);
    assert_eq!(bag.subtract(&ResourceBag::gold(40)), Ok(()));
    assert_eq!(bag.gold, 0);
}
