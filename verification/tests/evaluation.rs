use netter::language::ast::AstNode;
use netter::language::interpreter::builtin::request::Request;
use netter::language::interpreter::builtin::response::Response;
use netter::language::interpreter::context::ExecutionContext;
use netter::language::interpreter::evaluator::{Evaluator, ObjectRegistry, PluginFunctions, Services};
use netter::language::interpreter::route_handler::{ErrorHandler, RouteHandler};
use netter::language::interpreter::values::{binary_value, call_global_function, Fault};
use netter::language::vm::{FFIStatus, FFITypeTag, Object, RDLTypes};
use netter::utils::powi;

struct Named(&'static str);

impl Object for Named {
    fn name(&self) -> String {
        self.0.to_string()
    }

    fn call_method(&mut self, _name: &str, _args: Vec<RDLTypes>) -> Result<RDLTypes, String> {
        Ok(RDLTypes::Number(0))
    }

    fn method_exist(&self, _name: &str) -> bool {
        false
    }

    fn property_exist(&self, _name: &str) -> bool {
        false
    }

    fn get_property(&self, _name: &str) -> RDLTypes {
        RDLTypes::Number(0)
    }
}

#[derive(Default)]
struct Registry {
    calls: Vec<(String, String, usize)>,
}

impl ObjectRegistry for Registry {
    fn object_names(&self) -> Vec<String> {
        vec!["greet".to_string()]
    }

    fn call_object(&mut self, object: &str, method: &str, args: Vec<RDLTypes>) -> Option<Result<RDLTypes, String>> {
        self.calls.push((object.to_string(), method.to_string(), args.len()));
        if object == "greet" {
            Some(Ok(RDLTypes::String("hello".to_string())))
        } else {
            None
        }
    }
}

#[derive(Default)]
struct Plugins {
    answers: Vec<Result<(FFIStatus, String), String>>,
    seen: Vec<(String, String)>,
}

impl PluginFunctions for Plugins {
    fn call_function(&mut self, alias: &str, func: &str, _args: &Vec<RDLTypes>) -> Result<(FFIStatus, String), String> {
        self.seen.push((alias.to_string(), func.to_string()));
        if self.answers.is_empty() {
            Err("no answer".to_string())
        } else {
            self.answers.remove(0)
        }
    }
}

fn s(v: &str) -> Box<AstNode> {
    Box::new(AstNode::StringLiteral(v.to_string()))
}

fn n(v: i64) -> Box<AstNode> {
    Box::new(AstNode::NumberLiteral(v))
}

fn id(v: &str) -> Box<AstNode> {
    Box::new(AstNode::Identifier(v.to_string()))
}

fn bin(l: Box<AstNode>, op: &str, r: Box<AstNode>) -> Box<AstNode> {
    Box::new(AstNode::BinaryOp { left: l, operator: op.to_string(), right: r })
}

fn call(object: Option<Box<AstNode>>, name: &str, args: Vec<Box<AstNode>>, try_op: bool, unwrap_op: bool) -> Box<AstNode> {
    Box::new(AstNode::FunctionCall { object, name: name.to_string(), args, try_operator: try_op, unwrap_operator: unwrap_op })
}

fn var(name: &str, value: Box<AstNode>) -> Box<AstNode> {
    Box::new(AstNode::VarDeclaration { name: name.to_string(), value })
}

fn text_of(r: Result<RDLTypes, Fault>) -> String {
    match r {
        Ok(RDLTypes::String(t)) => t,
        other => panic!("expected a string, got {:?}", other),
    }
}

fn error_of(r: Result<RDLTypes, Fault>) -> String {
    match r {
        Err(Fault::Error(m)) => m,
        other => panic!("expected an error, got {:?}", other),
    }
}

fn eval(expr: &AstNode, vars: &[(&str, RDLTypes)], plugins: &[&str], services: &mut Services<Registry, Plugins>) -> Result<RDLTypes, Fault> {
    let mut ctx: ExecutionContext<Named> = ExecutionContext::new();
    for (k, v) in vars {
        let v = match v {
            RDLTypes::String(t) => RDLTypes::String(t.clone()),
            RDLTypes::Number(x) => RDLTypes::Number(*x),
            RDLTypes::Boolean(b) => RDLTypes::Boolean(*b),
            _ => RDLTypes::Number(0),
        };
        ctx.set_variable(&RDLTypes::String(k.to_string()), v);
    }
    let plugins: Vec<String> = plugins.iter().map(|p| p.to_string()).collect();
    let e = Evaluator::new(&ctx, &plugins);
    e.evaluate(expr, services)
}

fn services() -> Services<Registry, Plugins> {
    Services::new(Registry::default(), Plugins::default())
}

#[test]
fn powi_squares_and_multiplies() {
    assert_eq!(powi(2, 10), 1024);
    assert_eq!(powi(3, 0), 1);
    assert_eq!(powi(-2, 3), -8);
    assert_eq!(powi(10, 18), 1_000_000_000_000_000_000);
}

#[test]
fn binary_operators() {
    let one = RDLTypes::Number(1);
    let two = RDLTypes::Number(2);
    let a = RDLTypes::String("a".to_string());
    assert!(matches!(binary_value("+", &one, &two), Ok(RDLTypes::Number(3))));
    assert_eq!(text_of(binary_value("+", &a, &one)), "a1");
    assert_eq!(text_of(binary_value("==", &one, &one)), "true");
    assert_eq!(text_of(binary_value("!=", &one, &one)), "false");
    assert_eq!(error_of(binary_value("-", &a, &one)), "Can't convert 'a' into a number for subtraction");
    assert_eq!(error_of(binary_value("*", &one, &a)), "Can't convert 'a' into a number for multiplication");
    assert_eq!(error_of(binary_value("/", &one, &RDLTypes::Number(0))), "Division by zero");
    assert!(matches!(binary_value("/", &RDLTypes::Number(7), &two), Ok(RDLTypes::Number(3))));
    assert!(matches!(binary_value("/", &RDLTypes::Number(-7), &two), Ok(RDLTypes::Number(-3))));
    assert!(matches!(binary_value("^", &two, &RDLTypes::Number(10)), Ok(RDLTypes::Number(1024))));
    assert!(matches!(binary_value("^", &RDLTypes::Number(0), &RDLTypes::Number(-1)), Err(Fault::Endless)));
    match binary_value("^", &two, &RDLTypes::Number(-1)) {
        Err(Fault::Panic(m)) => assert_eq!(m, "attempt to multiply with overflow"),
        other => panic!("unexpected {:?}", other),
    }
    match binary_value("+", &RDLTypes::Number(i64::MAX), &one) {
        Err(Fault::Panic(m)) => assert_eq!(m, "attempt to add with overflow"),
        other => panic!("unexpected {:?}", other),
    }
    assert!(matches!(binary_value("&&", &RDLTypes::Boolean(false), &one), Ok(RDLTypes::Boolean(false))));
    assert!(matches!(binary_value("&&", &one, &one), Ok(RDLTypes::Boolean(true))));
    assert!(matches!(binary_value("||", &RDLTypes::Boolean(false), &RDLTypes::Boolean(false)), Ok(RDLTypes::Boolean(false))));
    assert!(matches!(binary_value("||", &a, &RDLTypes::Boolean(false)), Ok(RDLTypes::Boolean(true))));
    assert_eq!(error_of(binary_value("%", &one, &two)), "Not supported binary operator: %");
}

#[test]
fn display_of_values() {
    let v = RDLTypes::Vector(vec![RDLTypes::Number(1), RDLTypes::String("x".to_string()), RDLTypes::Boolean(true), RDLTypes::Object(3)]);
    assert_eq!(v.to_display_string(), "[1, x, true, [object Object]]");
    assert_eq!(RDLTypes::Number(-42).to_display_string(), "-42");
    assert_eq!(RDLTypes::Number(1).ffi_tag(), FFITypeTag::Number);
    assert_eq!(RDLTypes::String(String::new()).ffi_tag(), FFITypeTag::String);
    assert_eq!(RDLTypes::Object(1).ffi_tag(), FFITypeTag::Object);
}

#[test]
fn array_functions() {
    let arr = RDLTypes::String("[1,\"a\",true,null]".to_string());
    assert!(matches!(call_global_function("array_length", &vec![RDLTypes::String("[1,2,3]".to_string())]), Ok(RDLTypes::Number(3))));
    assert_eq!(text_of(call_global_function("array_push", &vec![RDLTypes::String("[1]".to_string()), RDLTypes::String("b\"".to_string())])), "[1,\"b\\\"\"]");
    assert_eq!(text_of(call_global_function("array_push", &vec![RDLTypes::String("[]".to_string()), RDLTypes::Number(7)])), "[7]");
    assert_eq!(text_of(call_global_function("array_pop", &vec![RDLTypes::String("[1,2.5,[3]]".to_string())])), "[1,2.5]");
    assert_eq!(error_of(call_global_function("array_pop", &vec![RDLTypes::String("[]".to_string())])), "Невозможно удалить элемент из пустого массива");
    assert!(matches!(call_global_function("array_contains", &vec![RDLTypes::String("[1,\"a\"]".to_string()), RDLTypes::String("1".to_string())]), Ok(RDLTypes::Boolean(true))));
    assert!(matches!(call_global_function("array_contains", &vec![RDLTypes::String("[null]".to_string()), RDLTypes::Number(1)]), Ok(RDLTypes::Boolean(false))));
    assert_eq!(error_of(call_global_function("array_contains", &vec![RDLTypes::String("[1]".to_string()), RDLTypes::Number(1)])), "Error with conversion! IN TryFrom<RDLTypes> for String\n1\n");
    assert_eq!(text_of(call_global_function("array_join", &vec![arr, RDLTypes::String("-".to_string())])), "1-a-true-null");
    assert_eq!(error_of(call_global_function("array_length", &vec![RDLTypes::String("nope".to_string())])), "Аргумент не является массивом");
    assert_eq!(error_of(call_global_function("log_info", &vec![])), "Функция log_info требует 1 аргумент");
    assert_eq!(text_of(call_global_function("log_error", &vec![RDLTypes::Number(1)])), "");
    assert_eq!(error_of(call_global_function("nothing", &vec![])), "Глобальная функция не найдена: nothing");
}

#[test]
fn evaluation_of_names_and_arrays() {
    let mut sv = services();
    assert_eq!(text_of(eval(&id("x"), &[("x", RDLTypes::String("v".to_string()))], &[], &mut sv)), "v");
    assert_eq!(text_of(eval(&id("Request"), &[], &[], &mut sv)), "Request");
    assert_eq!(text_of(eval(&id("auth"), &[], &["auth"], &mut sv)), "auth");
    assert_eq!(error_of(eval(&id("y"), &[], &[], &mut sv)), "Variable or object 'y' not found");
    let lit = AstNode::ArrayLiteral(vec![n(1), s("a"), s("5")]);
    assert_eq!(text_of(eval(&lit, &[], &[], &mut sv)), "[1,\"a\",5]");
    let acc = AstNode::ArrayAccess { array: s("[10,\"b\",false,null]"), index: n(1) };
    assert_eq!(text_of(eval(&acc, &[], &[], &mut sv)), "b");
    let acc = AstNode::ArrayAccess { array: s("[10]"), index: n(0) };
    assert!(matches!(eval(&acc, &[], &[], &mut sv), Ok(RDLTypes::Number(10))));
    let acc = AstNode::ArrayAccess { array: s("[10]"), index: n(3) };
    assert_eq!(error_of(eval(&acc, &[], &[], &mut sv)), "Индекс 3 выходит за границы массива (размер: 1)");
    let acc = AstNode::ArrayAccess { array: s("[10]"), index: s("x") };
    assert_eq!(error_of(eval(&acc, &[], &[], &mut sv)), "Индекс 'x' должен быть числом");
    let prop = AstNode::PropertyAccess { object: s("o"), property: "p".to_string() };
    assert_eq!(error_of(eval(&prop, &[], &[], &mut sv)), "Property access 'o.p' not implemented");
    let bad = AstNode::Block(vec![]);
    assert_eq!(error_of(eval(&bad, &[], &[], &mut sv)), "Unsupported expression: Block([])");
}

#[test]
fn evaluation_of_calls() {
    let mut sv = services();
    let c = call(Some(id("greet")), "greet", vec![n(1), n(2)], false, false);
    assert_eq!(text_of(eval(&c, &[], &[], &mut sv)), "hello");
    assert_eq!(sv.registry().calls, vec![("greet".to_string(), "greet".to_string(), 2)]);
    let c = call(Some(id("greet")), "other", vec![], false, false);
    assert_eq!(error_of(eval(&c, &[], &[], &mut sv)), "Object 'greet' not found");
    let c = call(Some(id("nobody")), "f", vec![], false, false);
    assert_eq!(error_of(eval(&c, &[], &[], &mut sv)), "Object 'nobody' not found");
    let c = call(None, "array_length", vec![s("[1,2]")], false, false);
    assert!(matches!(eval(&c, &[], &[], &mut sv), Ok(RDLTypes::Number(2))));
    let c = call(None, "missing", vec![], false, true);
    match eval(&c, &[], &[], &mut sv) {
        Err(Fault::Panic(m)) => assert_eq!(m, "Execution error (unwrap !!): Runtime ошибка: Глобальная функция не найдена: missing"),
        other => panic!("unexpected {:?}", other),
    }
    let c = call(Some(s("x")), "f", vec![], false, false);
    assert_eq!(error_of(eval(&c, &[], &[], &mut sv)), "Calling a method on a non-identifier ('x') is not supported");

    let mut sv = Services::new(Registry::default(), Plugins {
        answers: vec![Ok((FFIStatus::Success, "ok".to_string())), Ok((FFIStatus::Failure, "bad".to_string()))],
        seen: vec![],
    });
    let c = call(Some(id("auth")), "check", vec![], false, false);
    assert_eq!(text_of(eval(&c, &[], &["auth"], &mut sv)), "ok");
    assert_eq!(error_of(eval(&c, &[], &["auth"], &mut sv)), "Plugin Error: bad");
    assert_eq!(error_of(eval(&c, &[], &["auth"], &mut sv)), "no answer");
    let c = call(Some(id("auth")), "a\0b", vec![], false, false);
    assert_eq!(error_of(eval(&c, &[], &["auth"], &mut sv)), "Error creating CString for function name: nul byte found in provided data at position: 1");
    assert_eq!(sv.functions().seen.len(), 3);
}

fn run_route(handler: &RouteHandler, global: Option<&ErrorHandler>, sv: &mut Services<Registry, Plugins>, limit: u64) -> (Response, Option<Fault>) {
    let mut request = Request::empty();
    let mut response = Response::new();
    let plugins: Vec<String> = vec![];
    let r = handler.execute::<Named, Registry, Plugins>(&mut request, &mut response, &plugins, sv, global, limit);
    (response, r)
}

#[test]
fn route_error_goes_out_as_500() {
    let mut sv = services();
    let h = RouteHandler::new(vec![var("a", n(1)), var("b", id("missing"))], None);
    let (resp, r) = run_route(&h, None, &mut sv, 10);
    assert!(r.is_none());
    assert_eq!(resp.status, 500);
    assert_eq!(resp.body.as_deref(), Some("Internal Server Error: Variable or object 'missing' not found"));
    assert!(resp.is_sent);
}

#[test]
fn route_without_error_leaves_response() {
    let mut sv = services();
    let body = Box::new(AstNode::Block(vec![var("y", n(2))]));
    let yes = Box::new(AstNode::ArrayAccess { array: s("[true]"), index: n(0) });
    let iff = Box::new(AstNode::IfStatement { condition: yes, then_branch: body, else_branch: None });
    let h = RouteHandler::new(vec![var("a", n(1)), iff], None);
    let (resp, r) = run_route(&h, None, &mut sv, 10);
    assert!(r.is_none());
    assert_eq!(resp.status, 200);
    assert!(resp.body.is_none());
    assert!(!resp.is_sent);
}

#[test]
fn handlers_take_the_error() {
    let mut sv = services();
    let local = ErrorHandler { error_var: "e".to_string(), actions: vec![var("seen", id("e"))] };
    let h = RouteHandler::new(vec![var("b", id("missing"))], Some(local));
    let (resp, r) = run_route(&h, None, &mut sv, 10);
    assert!(r.is_none());
    assert!(!resp.is_sent);
    let global = ErrorHandler { error_var: "e".to_string(), actions: vec![var("x", id("nothing")), call(None, "missing", vec![], false, true)] };
    let h = RouteHandler::new(vec![var("b", id("missing"))], None);
    let (_, r) = run_route(&h, Some(&global), &mut sv, 10);
    match r {
        Some(Fault::Panic(m)) => assert!(m.starts_with("Execution error (unwrap !!)")),
        other => panic!("unexpected {:?}", other),
    }
}

#[test]
fn loops_and_compound_assignment() {
    let mut sv = services();
    // The condition reads a boolean out of a JSON array by the counter.
    let cond = Box::new(AstNode::ArrayAccess { array: s("[true,true,true,false]"), index: id("i") });
    let body = Box::new(AstNode::Block(vec![var("sum", bin(id("sum"), "+", id("i"))), var("i", bin(id("i"), "+", n(1)))]));
    let w = Box::new(AstNode::WhileLoop { condition: cond, body });
    let show = Box::new(AstNode::PropertyAccess { object: id("sum"), property: "p".to_string() });
    let h = RouteHandler::new(vec![var("i", n(0)), var("sum", n(0)), w, show], None);
    let (resp, r) = run_route(&h, None, &mut sv, 10);
    assert!(r.is_none());
    assert_eq!(resp.body.as_deref(), Some("Internal Server Error: Property access '3.p' not implemented"));

    let always = Box::new(AstNode::ArrayAccess { array: s("[true]"), index: n(0) });
    let forever = Box::new(AstNode::WhileLoop { condition: always, body: var("z", n(1)) });
    let h = RouteHandler::new(vec![forever], None);
    let (_, r) = run_route(&h, None, &mut sv, 5);
    assert!(matches!(r, Some(Fault::LoopLimit)));

    let h = RouteHandler::new(vec![var("t", n(1)), bin(id("t"), "+=", n(4)), bin(id("t"), "*", n(2))], None);
    let (resp, _) = run_route(&h, None, &mut sv, 5);
    assert_eq!(resp.body.as_deref(), Some("Internal Server Error: Can't convert '5' into a number for multiplication"));

    let body = Box::new(AstNode::Block(vec![bin(id("acc"), "+=", id("item"))]));
    let f = Box::new(AstNode::ForLoop { var_name: "item".to_string(), iterable: s("a,b,c"), body });
    let check = bin(id("acc"), "*", n(2));
    let h = RouteHandler::new(vec![var("acc", s(">")), f, check], None);
    let (resp, _) = run_route(&h, None, &mut sv, 5);
    assert_eq!(resp.body.as_deref(), Some("Internal Server Error: Can't convert '>abc' into a number for multiplication"));

    let h = RouteHandler::new(vec![var("q", n(7)), bin(id("q"), "/=", n(0))], None);
    let (resp, _) = run_route(&h, None, &mut sv, 5);
    assert_eq!(resp.body.as_deref(), Some("Internal Server Error: Деление на ноль"));

    let h = RouteHandler::new(vec![bin(s("q"), "-=", n(0))], None);
    let (resp, _) = run_route(&h, None, &mut sv, 5);
    assert_eq!(resp.body.as_deref(), Some("Internal Server Error: Оператор '-=' может использоваться только с идентификатором переменной слева"));

    let h = RouteHandler::new(vec![bin(id("nope"), "*=", n(2))], None);
    let (resp, _) = run_route(&h, None, &mut sv, 5);
    assert_eq!(resp.body.as_deref(), Some("Internal Server Error: Переменная 'nope' для '*=' не найдена"));
}

#[test]
fn context_scopes() {
    let mut outer: ExecutionContext<Named> = ExecutionContext::new();
    outer.set_variable(&RDLTypes::String("a".to_string()), RDLTypes::Number(1));
    outer.add_object(Named("db"));
    assert!(outer.has_object(&RDLTypes::String("db".to_string())));
    assert!(outer.get_object(&RDLTypes::String("db".to_string())).is_some());
    assert!(!outer.has_object(&RDLTypes::String("fs".to_string())));
    assert_eq!(outer.get_objects().len(), 1);
    let mut inner = ExecutionContext::with_parent(outer);
    assert!(inner.has_variable(&RDLTypes::String("a".to_string())));
    assert!(!inner.has_variable_local(&RDLTypes::String("a".to_string())));
    inner.set_variable(&RDLTypes::String("a".to_string()), RDLTypes::Number(2));
    assert!(matches!(inner.get_variable(&RDLTypes::String("a".to_string())), Some(RDLTypes::Number(2))));
    inner.set_variable(&RDLTypes::String("a".to_string()), RDLTypes::Number(3));
    assert_eq!(inner.get_local_variables().len(), 1);
    assert!(matches!(inner.get_variable(&RDLTypes::String("a".to_string())), Some(RDLTypes::Number(3))));
    assert!(inner.get_variable(&RDLTypes::String("b".to_string())).is_none());
}
