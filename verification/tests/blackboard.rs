use goap::{Blackboard, Value};

#[test]
fn empty_stores_are_equal() {
    let a = Blackboard::new();
    let b = Blackboard::new();
    assert!(a.equals(&b));
    assert!(b.equals(&a));
}

#[test]
fn equality_is_symmetric_and_order_independent() {
    let mut a = Blackboard::new();
    a.insert_bool("NearbyFire", true);
    a.insert_number("Wood", 4);
    a.insert_str("Name", "foxy");

    let mut b = Blackboard::new();
    b.insert_str("Name", "foxy");
    b.insert_bool("NearbyFire", true);
    b.insert_number("Wood", 4);

    assert!(a.equals(&b));
    assert!(b.equals(&a));

    let mut c = Blackboard::new();
    c.insert_bool("NearbyFire", false);
    c.insert_number("Wood", 4);
    c.insert_str("Name", "foxy");
    assert!(!a.equals(&c));
    assert!(!c.equals(&a));
}

#[test]
fn equality_checks_both_directions() {
    let mut small = Blackboard::new();
    small.insert_bool("NearbyFire", true);

    let mut big = Blackboard::new();
    big.insert_bool("NearbyFire", true);
    big.insert_bool("LocatedFire", true);

    assert!(!small.equals(&big));
    assert!(!big.equals(&small));
}

#[test]
fn hash_is_consistent_with_equality() {
    let mut a = Blackboard::new();
    a.insert_bool("NearbyFire", true);
    a.insert_number("Wood", 9);
    a.insert_str("Target", "tree");

    let mut b = Blackboard::new();
    b.insert_str("Target", "tree");
    b.insert_number("Wood", 9);
    b.insert_bool("NearbyFire", true);

    assert!(a.equals(&b));
    assert_eq!(a.hash(), b.hash());
}

#[test]
fn last_insert_wins() {
    let mut a = Blackboard::new();
    a.insert_number("Wood", 1);
    a.insert_number("Wood", 7);
    assert_eq!(a.get_number("Wood"), Some(7));

    let mut b = Blackboard::new();
    b.insert_number("Wood", 7);
    assert!(a.equals(&b));
    assert_eq!(a.hash(), b.hash());
}

#[test]
fn typed_reads_treat_mismatched_tags_as_absent() {
    let mut a = Blackboard::new();
    a.insert_bool("Flag", true);
    a.insert_number("Count", 3);
    a.insert_str("Word", "fire");

    assert_eq!(a.get_bool("Flag"), Some(true));
    assert_eq!(a.get_number("Flag"), None);
    assert_eq!(a.get_str("Flag"), None);

    assert_eq!(a.get_number("Count"), Some(3));
    assert_eq!(a.get_bool("Count"), None);

    assert_eq!(a.get_str("Word"), Some(String::from("fire")));
    assert_eq!(a.get_bool("Word"), None);

    assert_eq!(a.get_bool("Missing"), None);
    assert_eq!(a.get_number("Missing"), None);
    assert_eq!(a.get_str("Missing"), None);
}

#[test]
fn take_removes_and_returns_the_fact() {
    let mut a = Blackboard::new();
    a.insert_bool("Flag", true);
    a.insert_number("Count", 3);

    let taken = a.take("Flag");
    assert!(matches!(taken, Some(Value::Bool(true))));
    assert_eq!(a.get_bool("Flag"), None);
    assert_eq!(a.get_number("Count"), Some(3));

    assert!(a.take("Flag").is_none());
    assert!(a.take("NeverThere").is_none());
}

#[test]
fn value_equality_is_structural() {
    let a = Value::Str(String::from("axe"));
    let b = Value::Str(String::from("axe"));
    let c = Value::Str(String::from("log"));
    assert!(a.equals(&b));
    assert!(!a.equals(&c));
    assert!(!a.equals(&Value::Bool(true)));
    assert!(Value::Number(4).equals(&Value::Number(4)));
    assert!(!Value::Number(4).equals(&Value::Number(5)));
}

#[test]
fn clones_are_equal_and_independent() {
    let mut a = Blackboard::new();
    a.insert_bool("NearbyFire", true);
    let mut b = a.clone();
    assert!(a.equals(&b));
    b.insert_bool("NearbyFire", false);
    assert!(!a.equals(&b));
    assert_eq!(a.get_bool("NearbyFire"), Some(true));
}
