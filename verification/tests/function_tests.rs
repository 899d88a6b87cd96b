use amnis::Error;
use amnis::Function;

#[test]
fn test_transmute() {
    assert_eq!(Function::new(0).unwrap(), Function::Null);
    assert_eq!(Function::new(1).unwrap(), Function::Echo);
    assert_eq!(Function::Null.get_id(), 0);
    assert_eq!(Function::Echo.get_id(), 1);
}

#[test]
fn out_of_range_id_is_refused() {
    assert_eq!(Function::new(2).err(), Some(Error::FnIdInvalid));
    assert_eq!(Function::new(-1).err(), Some(Error::FnIdInvalid));
    assert_eq!(Function::new(255).err(), Some(Error::FnIdInvalid));
}

#[test]
fn names_resolve_both_ways() {
    assert_eq!(Function::name_to_i32(&b"null".to_vec()), Ok(0));
    assert_eq!(Function::name_to_i32(&b"echo".to_vec()), Ok(1));
    assert_eq!(
        Function::name_to_i32(&b"nosuch".to_vec()).err(),
        Some(Error::FnNotFound)
    );
    assert_eq!(Function::name_from_i32(0).unwrap(), b"null".to_vec());
    assert_eq!(Function::name_from_i32(1).unwrap(), b"echo".to_vec());
    assert_eq!(Function::name_from_i32(9).err(), Some(Error::FnNotFound));
}

#[test]
fn no_function_declares_a_binary_body() {
    assert!(!Function::Null.has_bin());
    assert!(!Function::Echo.has_bin());
}

#[test]
fn call_tags_the_frame_and_returns_an_empty_payload() {
    let frame = Function::Echo.call(Vec::new(), 3, 7, 9);
    assert_eq!(frame.channel, 3);
    assert_eq!(frame.line, 7);
    assert_eq!(frame.size, 9);
    assert!(frame.payload.is_empty());
}
