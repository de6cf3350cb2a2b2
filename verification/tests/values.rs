use serde_alloc::{boxed, option_absent, option_present, Native, WithAllocSeed};

#[test]
fn native_into_inner_gives_back_the_value() {
    assert_eq!(Native(42i32).into_inner(), 42);
    assert_eq!(Native(String::from("x")).into_inner(), "x");
}

#[test]
fn native_compares_with_inner_value() {
    assert!(Native(7u8) == 7u8);
    assert!(!(Native(7u8) == 8u8));
    assert_eq!(Native(3i64), Native(3i64));
}

#[test]
fn native_wraps_a_read_value() {
    let ok: Result<Native<i32>, String> = Native::wrap_result(Ok(5));
    assert_eq!(ok, Ok(Native(5)));
    let err: Result<Native<i32>, String> = Native::wrap_result(Err("bad".to_string()));
    assert_eq!(err, Err("bad".to_string()));
}

#[test]
fn seed_carries_its_allocator_handle() {
    let seed: WithAllocSeed<Vec<u8>, u32> = WithAllocSeed::new(17);
    assert_eq!(*seed.handle(), 17);
    assert_eq!(seed.into_alloc(), 17);
}

#[test]
fn option_absent_is_none() {
    let r: Result<Option<i32>, String> = option_absent();
    assert_eq!(r, Ok(None));
}

#[test]
fn option_present_wraps_in_some() {
    let r: Result<Option<i32>, String> = option_present(Ok(9));
    assert_eq!(r, Ok(Some(9)));
    let e: Result<Option<i32>, String> = option_present(Err("e".to_string()));
    assert_eq!(e, Err("e".to_string()));
}

#[test]
fn boxed_moves_value_into_box() {
    let r: Result<Box<i32>, String> = boxed(Ok(7));
    assert_eq!(r, Ok(Box::new(7)));
    let e: Result<Box<i32>, String> = boxed(Err("e".to_string()));
    assert_eq!(e, Err("e".to_string()));
}

#[test]
fn null_or_boxed_native_value() {
    // a null gives `None`; a number gives it boxed and wrapped
    let none: Result<Option<Box<Native<i32>>>, String> = option_absent();
    assert!(none.unwrap().is_none());
    let some: Result<Option<Box<Native<i32>>>, String> =
        option_present(boxed(Native::wrap_result(Ok(7))));
    assert_eq!(some, Ok(Some(Box::new(Native(7)))));
}
