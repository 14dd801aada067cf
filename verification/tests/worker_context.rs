use netter::cesium::context::{NewFunction, Property, WorkerContext};
use netter::cesium::iterator::{AsFunction, AsPropertyIterator, FunctionIterator, PropertyIterator};

#[test]
fn test_property() {
    let mut ctx = WorkerContext::<516, 500, 8>::new();

    let prop1 = Property::new("var1", b"hello");
    let prop2 = Property::new("var2", b"world");

    ctx.add_property(prop1).unwrap();
    ctx.add_property(prop2).unwrap();

    let p1 = ctx.read_property("var1").unwrap();
    assert_eq!(p1.value, b"hello");

    let p2 = ctx.read_property("var2").unwrap();
    assert_eq!(p2.value, b"world");

    assert!(ctx.update_value_property("var1", b"bytes").unwrap());
    let prop1_updated = ctx.read_property("var1").unwrap();
    assert_eq!(prop1_updated.value, b"bytes");

    assert!(ctx.update_value_property("var1", b"long_bytes").is_err());

    assert!(ctx.delete_property("var1"));
    assert!(ctx.read_property("var1").is_none());

    assert!(ctx.read_property("var2").is_some());
}

#[test]
fn test_function() {
    let mut ctx = WorkerContext::<256, 512, 4>::new();

    let arg1 = b"abc";
    let arg2 = b"de";
    let func = NewFunction {
        name: "test_fn".to_string(),
        ret_ptr: 0xDEADBEEF,
        args: vec![arg1.to_vec(), arg2.to_vec()],
    };

    ctx.add_function(func).unwrap();

    let read_fn = ctx.read_function("test_fn").unwrap();
    assert_eq!(read_fn.ret_ptr, 0xDEADBEEF);
    assert_eq!(read_fn.args_count, 2);

    assert_eq!(read_fn.get_arg(0).unwrap(), b"abc");
    assert_eq!(read_fn.get_arg(1).unwrap(), b"de");

    let new_payload = b"xyz12";
    assert!(ctx.update_function_args_payload("test_fn", new_payload).unwrap());

    assert!(ctx.delete_function("test_fn"));
    assert!(ctx.read_function("test_fn").is_none());
}

#[test]
fn test_buffer_overflow() {
    let mut ctx = WorkerContext::<16, 16, 2>::new();

    let prop = Property::new("a", b"1");
    assert!(ctx.add_property(prop).is_err());
}

#[test]
fn property_record_layout_is_two_lengths_then_bytes() {
    let mut ctx = WorkerContext::<64, 64, 1>::new();
    ctx.add_property(Property::new("ab", b"xyz")).unwrap();
    assert_eq!(&ctx.properties[0..8], &[2, 0, 0, 0, 0, 0, 0, 0]);
    assert_eq!(&ctx.properties[8..16], &[3, 0, 0, 0, 0, 0, 0, 0]);
    assert_eq!(&ctx.properties[16..21], b"abxyz");
}

#[test]
fn second_property_starts_on_a_multiple_of_eight() {
    let mut ctx = WorkerContext::<128, 64, 1>::new();
    ctx.add_property(Property::new("a", b"1")).unwrap();
    ctx.add_property(Property::new("b", b"2")).unwrap();
    assert_eq!(ctx.properties[24], 1);
    assert_eq!(&ctx.properties[40..42], b"b2");
    assert_eq!(ctx.read_property("b").unwrap().value, b"2");
}

#[test]
fn add_then_read_gives_the_value() {
    let mut ctx = WorkerContext::<256, 64, 1>::new();
    ctx.add_property(Property::new("first", b"1")).unwrap();
    ctx.add_property(Property::new("second", b"22")).unwrap();
    let p = ctx.read_property("second").unwrap();
    assert_eq!(p.name, "second");
    assert_eq!(p.value, b"22");
}

#[test]
fn property_exactly_filling_the_buffer_fits() {
    let mut ctx = WorkerContext::<18, 16, 1>::new();
    assert!(ctx.add_property(Property::new("a", b"1")).is_ok());
    let mut small = WorkerContext::<17, 16, 1>::new();
    assert_eq!(small.add_property(Property::new("a", b"1")), Err("Not enough memory in properties buffer"));
}

#[test]
fn missing_property_is_not_updated_or_deleted() {
    let mut ctx = WorkerContext::<64, 64, 1>::new();
    assert_eq!(ctx.update_value_property("none", b"x"), Ok(false));
    assert!(!ctx.delete_property("none"));
}

#[test]
fn too_many_arguments_are_refused() {
    let mut ctx = WorkerContext::<64, 256, 1>::new();
    let func = NewFunction { name: "f".to_string(), ret_ptr: 1, args: vec![vec![1], vec![2]] };
    assert_eq!(ctx.add_function(func), Err("Count of arguments greater then max allow (FUNCTION_ARGS_COUNT)"));
}

#[test]
fn function_that_does_not_fit_is_refused() {
    let mut ctx = WorkerContext::<64, 40, 1>::new();
    let func = NewFunction { name: "f".to_string(), ret_ptr: 1, args: vec![vec![1]] };
    assert_eq!(ctx.add_function(func), Err("Not enough memory in buffer for write new function"));
}

#[test]
fn function_updates_and_listing() {
    let mut ctx = WorkerContext::<64, 512, 2>::new();
    ctx.add_function(NewFunction { name: "f".to_string(), ret_ptr: 7, args: vec![b"ab".to_vec()] }).unwrap();
    ctx.add_function(NewFunction { name: "g".to_string(), ret_ptr: 9, args: vec![] }).unwrap();
    assert!(ctx.update_function_ret_ptr("f", 42));
    assert!(!ctx.update_function_ret_ptr("h", 1));
    assert_eq!(ctx.read_function("f").unwrap().ret_ptr, 42);
    assert!(ctx.update_function_args_payload("f", b"abc").is_err());
    assert_eq!(ctx.update_function_args_payload("h", b"x"), Ok(false));
    let all = ctx.read_all_functions();
    assert_eq!(all.len(), 2);
    assert_eq!(all[0].name, "f");
    assert_eq!(all[1].name, "g");
    assert_eq!(all[1].ret_ptr, 9);
    assert_eq!(all[1].args_count, 0);
    assert!(all[1].get_arg(0).is_none());
}

#[test]
fn property_walk_visits_records_in_order() {
    let mut ctx = WorkerContext::<256, 64, 2>::new();
    ctx.add_property(Property::new("a", b"1")).unwrap();
    ctx.add_property(Property::new("bb", b"22")).unwrap();
    let mut it = PropertyIterator::new(&ctx.properties);
    let first = it.next().unwrap();
    assert_eq!(first.name, "a");
    assert_eq!(first.value, b"1");
    let second = it.next().unwrap();
    assert_eq!(second.name, "bb");
    assert_eq!(second.value, b"22");
    assert!(it.next().is_none());
    assert!(it.next().is_none());
    let mut again = ctx.properties.with_property();
    assert_eq!(again.next().unwrap().name, "a");
}

#[test]
fn function_walk_visits_records_in_order() {
    let mut ctx = WorkerContext::<64, 512, 3>::new();
    ctx.add_function(NewFunction { name: "f".to_string(), ret_ptr: 7, args: vec![b"xy".to_vec()] }).unwrap();
    ctx.add_function(NewFunction { name: "g".to_string(), ret_ptr: 9, args: vec![] }).unwrap();
    let mut it = FunctionIterator::<3>::new(&ctx.functions);
    let f = it.next().unwrap();
    assert_eq!(f.name, "f");
    assert_eq!(f.ret_ptr, 7);
    assert_eq!(f.args_count, 1);
    assert_eq!(f.get_arg(0).unwrap(), b"xy");
    let g = it.next().unwrap();
    assert_eq!(g.name, "g");
    assert_eq!(g.args_count, 0);
    assert!(it.next().is_none());
    let mut again = ctx.functions.with_function::<3>();
    assert_eq!(again.next().unwrap().ret_ptr, 7);
}
