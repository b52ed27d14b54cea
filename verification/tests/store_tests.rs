use pascal_front::store::{builtin_types, Store, Variable};
use pascal_front::types::Type;

#[test]
fn empty_store_answers_nothing() {
    let s: Store<i64> = Store::new();
    assert!(s.get("x").is_none());
    assert!(!s.contains("x"));
}

#[test]
fn set_then_get() {
    let mut s: Store<i64> = Store::new();
    s.set("x", 7);
    assert_eq!(s.get("x"), Some(&7));
    assert!(s.contains("x"));
    s.set("x", 9);
    assert_eq!(s.get("x"), Some(&9));
}

#[test]
fn lookup_misses_defer_to_the_parent() {
    let mut parent: Store<i64> = Store::new();
    parent.set("shared", 1);
    let child = Store::with_fallback(parent);
    // contains asks this store's own level only
    assert!(!child.contains("shared"));
    // a miss defers to the parent
    assert_eq!(child.get("shared"), Some(&1));
    assert!(child.get("absent").is_none());
}

#[test]
fn writes_to_a_parent_name_are_forwarded() {
    let mut parent: Store<i64> = Store::new();
    parent.set("shared", 1);
    let mut child = Store::with_fallback(parent);
    child.set("shared", 2);
    // the binding changed down the chain, not at the child's own level
    assert!(!child.contains("shared"));
    assert_eq!(child.get("shared"), Some(&2));

    child.set("own", 3);
    assert!(child.contains("own"));
    assert_eq!(child.get("own"), Some(&3));
}

#[test]
fn bulk_insert_binds_every_pair() {
    let mut s: Store<i64> = Store::new();
    s.insert(vec![("a".to_string(), 1), ("b".to_string(), 2)]);
    assert_eq!(s.get("a"), Some(&1));
    assert_eq!(s.get("b"), Some(&2));
    // a later pair for the same key wins
    s.insert(vec![("a".to_string(), 10), ("a".to_string(), 11)]);
    assert_eq!(s.get("a"), Some(&11));
}

#[test]
fn the_standard_type_registry() {
    let types = builtin_types();
    assert_eq!(types.get("INTEGER"), Some(&Type::Integer));
    assert_eq!(types.get("CHAR"), Some(&Type::Char));
    assert_eq!(types.get("REAL"), Some(&Type::Real));
    assert_eq!(types.get("BOOLEAN"), Some(&Type::Boolean));
    assert!(types.get("STRING").is_none());
}

#[test]
fn variables_keep_their_parts() {
    let v = Variable::new("count".to_string(), Type::Integer);
    assert_eq!(v.name, "count");
    assert_eq!(v.ty, Type::Integer);
}
