use std::cell::RefCell;
use std::rc::Rc;

use netter::language::vm::{Object, ProcessContext, RDLTypes, StepOutcome};

struct Calc {
    seen: Rc<RefCell<Vec<Vec<RDLTypes>>>>,
}

impl Object for Calc {
    fn name(&self) -> String {
        "Calc".to_string()
    }

    fn call_method(&mut self, name: &str, args: Vec<RDLTypes>) -> Result<RDLTypes, String> {
        match name {
            "seven" => Ok(RDLTypes::Number(7)),
            "five" => Ok(RDLTypes::Number(5)),
            "zero" => Ok(RDLTypes::Number(0)),
            "text" => Ok(RDLTypes::String("abc".to_string())),
            "record" => {
                self.seen.borrow_mut().push(args);
                Ok(RDLTypes::Boolean(true))
            },
            _ => Err(format!("no method {name}")),
        }
    }

    fn method_exist(&self, _name: &str) -> bool {
        true
    }

    fn property_exist(&self, _name: &str) -> bool {
        false
    }

    fn get_property(&self, _name: &str) -> RDLTypes {
        RDLTypes::Boolean(false)
    }
}

const CONSTS: [&str; 6] = ["seven", "five", "zero", "record", "nope", "text"];

fn call(code: &mut Vec<u8>, obj: u32, constant: u32, argc: u32) {
    code.push(0x15);
    code.extend_from_slice(&obj.to_le_bytes());
    code.extend_from_slice(&constant.to_le_bytes());
    code.extend_from_slice(&argc.to_le_bytes());
}

fn with_index(code: &mut Vec<u8>, op: u8, idx: u32) {
    code.push(op);
    code.extend_from_slice(&idx.to_le_bytes());
}

fn run(code: &[u8], limit: u32) -> (StepOutcome, Vec<Vec<RDLTypes>>) {
    let seen = Rc::new(RefCell::new(Vec::new()));
    let mut ctx = ProcessContext::new(CONSTS.iter().map(|s| s.to_string()).collect());
    ctx.add_object(Calc { seen: seen.clone() });
    let out = ctx.run(&code.to_vec(), limit);
    let recorded = seen.borrow_mut().drain(..).collect();
    (out, recorded)
}

fn number(v: &RDLTypes) -> i64 {
    match v {
        RDLTypes::Number(n) => *n,
        other => panic!("not a number: {:?}", other),
    }
}

#[test]
fn adds_numbers_from_an_object() {
    let mut code = Vec::new();
    call(&mut code, 0, 0, 0);
    call(&mut code, 0, 1, 0);
    code.push(0x04);
    call(&mut code, 0, 3, 1);
    code.push(0xFF);
    let (out, seen) = run(&code, 100);
    assert!(matches!(out, StepOutcome::Finished));
    assert_eq!(seen.len(), 1);
    assert_eq!(number(&seen[0][0]), 12);
}

#[test]
fn variables_store_and_load() {
    let mut code = Vec::new();
    call(&mut code, 0, 0, 0);
    with_index(&mut code, 0x02, 1);
    with_index(&mut code, 0x01, 1);
    with_index(&mut code, 0x01, 1);
    code.push(0x06);
    call(&mut code, 0, 3, 1);
    let (out, seen) = run(&code, 100);
    assert!(matches!(out, StepOutcome::Finished));
    assert_eq!(number(&seen[0][0]), 49);
}

#[test]
fn division_rounds_toward_zero_and_by_zero_panics() {
    let mut code = Vec::new();
    call(&mut code, 0, 0, 0);
    call(&mut code, 0, 2, 0);
    code.push(0x07);
    let (out, _) = run(&code, 100);
    match out {
        StepOutcome::Panic(m) => assert_eq!(m, "attempt to divide by zero"),
        other => panic!("unexpected {:?}", other),
    }
    let mut code = Vec::new();
    call(&mut code, 0, 0, 0);
    call(&mut code, 0, 1, 0);
    code.push(0x05);
    call(&mut code, 0, 1, 0);
    code.push(0x05);
    call(&mut code, 0, 1, 0);
    code.push(0x07);
    call(&mut code, 0, 3, 1);
    let (out, seen) = run(&code, 100);
    assert!(matches!(out, StepOutcome::Finished));
    assert_eq!(number(&seen[0][0]), 0);
}

#[test]
fn unknown_opcode_fails() {
    let (out, _) = run(&[0x42], 10);
    match out {
        StepOutcome::Fail(m) => assert_eq!(m, "Unknown or unhandled opcode: 0x42"),
        other => panic!("unexpected {:?}", other),
    }
}

#[test]
fn operation_limit_fails() {
    let (out, _) = run(&[0x00, 0x00], 1);
    match out {
        StepOutcome::Fail(m) => assert_eq!(m, "Runtime error: bytecode operations are out of range"),
        other => panic!("unexpected {:?}", other),
    }
}

#[test]
fn undefined_variable_fails() {
    let mut code = Vec::new();
    with_index(&mut code, 0x01, 3);
    let (out, _) = run(&code, 10);
    match out {
        StepOutcome::Fail(m) => assert_eq!(m, "Runtime error: Variable with index 3 is not defined"),
        other => panic!("unexpected {:?}", other),
    }
}

#[test]
fn missing_object_and_object_errors_fail() {
    let mut code = Vec::new();
    call(&mut code, 3, 0, 0);
    let (out, _) = run(&code, 10);
    match out {
        StepOutcome::Fail(m) => assert_eq!(m, "Object not found at index 3"),
        other => panic!("unexpected {:?}", other),
    }
    let mut code = Vec::new();
    call(&mut code, 0, 4, 0);
    let (out, _) = run(&code, 10);
    match out {
        StepOutcome::Fail(m) => assert_eq!(m, "no method nope"),
        other => panic!("unexpected {:?}", other),
    }
}

#[test]
fn comparisons_and_arrays() {
    let mut code = Vec::new();
    call(&mut code, 0, 1, 0);
    call(&mut code, 0, 0, 0);
    code.push(0x20);
    call(&mut code, 0, 0, 0);
    call(&mut code, 0, 1, 0);
    with_index(&mut code, 0x08, 2);
    call(&mut code, 0, 3, 2);
    let (out, seen) = run(&code, 100);
    assert!(matches!(out, StepOutcome::Finished));
    assert!(matches!(seen[0][0], RDLTypes::Boolean(true)));
    match &seen[0][1] {
        RDLTypes::Vector(items) => {
            assert_eq!(items.len(), 2);
            assert_eq!(number(&items[0]), 7);
            assert_eq!(number(&items[1]), 5);
        },
        other => panic!("unexpected {:?}", other),
    }
}

#[test]
fn jump_past_the_end_fails() {
    let mut code = Vec::new();
    with_index(&mut code, 0x13, 100);
    let (out, _) = run(&code, 10);
    match out {
        StepOutcome::Fail(m) => assert_eq!(m, "Runtime error: Jmp target 100 is out of bytecode bounds"),
        other => panic!("unexpected {:?}", other),
    }
}

#[test]
fn adding_a_string_is_a_type_error() {
    let mut code = Vec::new();
    call(&mut code, 0, 5, 0);
    call(&mut code, 0, 0, 0);
    code.push(0x04);
    let (out, _) = run(&code, 10);
    match out {
        StepOutcome::Fail(m) => assert_eq!(m, "Type error: argument A is not a Number"),
        other => panic!("unexpected {:?}", other),
    }
}

#[test]
fn values_compare_and_copy() {
    let a = RDLTypes::Vector(vec![RDLTypes::Number(1), RDLTypes::String("x".to_string())]);
    let b = a.duplicate();
    assert!(a.equals(&b));
    assert!(!a.equals(&RDLTypes::Number(1)));
    assert_eq!(RDLTypes::Number(1).as_bool(), Ok(true));
    assert_eq!(RDLTypes::Number(2).as_bool(), Err("Type error: Number 2 cannot be boolean".to_string()));
    assert!(RDLTypes::Boolean(true).not_value());
    assert!(!RDLTypes::Number(0).not_value());
}
