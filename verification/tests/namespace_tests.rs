use amnis::Error;
use amnis::Namespace;

#[test]
fn ids_start_at_one_and_never_collide() {
    let mut ns = Namespace::new();
    let a = ns.add_name(&b"a".to_vec());
    let b = ns.add_name(&b"b".to_vec());
    let c = ns.add_name(&b"c".to_vec());
    assert_eq!(a, 1);
    assert_eq!(b, 2);
    assert_eq!(c, 3);
    assert_ne!(a, b);
    assert_ne!(b, c);
    assert_ne!(a, c);
}

#[test]
fn both_lookup_directions_agree() {
    let mut ns = Namespace::new();
    let id = ns.add_name(&b"alpha".to_vec());
    assert_eq!(ns.get_id(&b"alpha".to_vec()), Some(id));
    assert_eq!(ns.get_name(&id), Some(b"alpha".to_vec()));
    assert_eq!(ns.get_id(&b"beta".to_vec()), None);
    assert_eq!(ns.get_name(&99), None);
}

#[test]
fn reregistering_allocates_a_fresh_id_and_shadows() {
    let mut ns = Namespace::new();
    let first = ns.add_name(&b"x".to_vec());
    let second = ns.add_name(&b"x".to_vec());
    assert_ne!(first, second);
    assert_eq!(ns.get_id(&b"x".to_vec()), Some(second));
    assert_eq!(ns.get_name(&first), Some(b"x".to_vec()));
    assert_eq!(ns.get_name(&second), Some(b"x".to_vec()));
}

#[test]
fn unregister_by_name_leaves_both_directions_absent() {
    let mut ns = Namespace::new();
    let first = ns.add_name(&b"x".to_vec());
    let second = ns.add_name(&b"x".to_vec());
    let removed = ns.remove_name(&b"x".to_vec());
    assert_eq!(removed, Some(second));
    assert_eq!(ns.get_id(&b"x".to_vec()), None);
    assert_eq!(ns.get_name(&first), None);
    assert_eq!(ns.get_name(&second), None);
}

#[test]
fn unregister_by_id_removes_only_that_binding() {
    let mut ns = Namespace::new();
    let a = ns.add_name(&b"a".to_vec());
    let b = ns.add_name(&b"b".to_vec());
    assert_eq!(ns.remove_id(&a), Some(b"a".to_vec()));
    assert_eq!(ns.get_name(&a), None);
    assert_eq!(ns.get_id(&b"a".to_vec()), None);
    assert_eq!(ns.get_id(&b"b".to_vec()), Some(b));
}

#[test]
fn ids_are_not_reused_after_removal() {
    let mut ns = Namespace::new();
    let a = ns.add_name(&b"a".to_vec());
    ns.remove_name(&b"a".to_vec());
    let b = ns.add_name(&b"b".to_vec());
    assert!(b > a);
    assert_eq!(ns.last_id(), b);
}

#[test]
fn try_get_id_reports_undeclared_names() {
    let mut ns = Namespace::new();
    assert_eq!(ns.try_get_id(&b"q".to_vec()).err(), Some(Error::InvalidInput));
    let id = ns.add_name(&b"q".to_vec());
    assert_eq!(ns.try_get_id(&b"q".to_vec()), Ok(id));
}
