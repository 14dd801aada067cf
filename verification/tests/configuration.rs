use netter::language::ast::AstNode;
use netter::language::interpreter::builtin::request::HttpBodyVariant;
use netter::language::interpreter::builtin::response::Response;
use netter::language::interpreter::evaluator::{ObjectRegistry, PluginFunctions, Services};
use netter::language::interpreter::executor::{Executor, Interpreter};
use netter::language::interpreter::route_handler::RouteHandler;
use netter::language::interpreter::run::{PluginCalls, PluginHost};
use netter::language::interpreter::values::Fault;
use netter::language::parser::parse;
use netter::language::strmap::StrMap;
use netter::language::vm::{FFIStatus, Object, RDLTypes};

struct Thing;

impl Object for Thing {
    fn name(&self) -> String {
        "thing".to_string()
    }

    fn call_method(&mut self, _name: &str, _args: Vec<RDLTypes>) -> Result<RDLTypes, String> {
        Ok(RDLTypes::Number(0))
    }

    fn method_exist(&self, _name: &str) -> bool {
        false
    }

    fn property_exist(&self, _name: &str) -> bool {
        false
    }

    fn get_property(&self, _name: &str) -> RDLTypes {
        RDLTypes::Number(0)
    }
}

struct NoObjects;

impl ObjectRegistry for NoObjects {
    fn object_names(&self) -> Vec<String> {
        Vec::new()
    }

    fn call_object(&mut self, _object: &str, _method: &str, _args: Vec<RDLTypes>) -> Option<Result<RDLTypes, String>> {
        None
    }
}

struct NoFunctions;

impl PluginFunctions for NoFunctions {
    fn call_function(&mut self, _alias: &str, _func: &str, _args: &Vec<RDLTypes>) -> Result<(FFIStatus, String), String> {
        Err("no plugin".to_string())
    }
}

#[derive(Default)]
struct Loader {
    refuse: Option<String>,
    loaded: Vec<(String, String)>,
}

impl PluginHost for Loader {
    fn dispatch(&mut self, _alias: &str, _func: &str, _args_json: &str) -> Result<String, String> {
        Err("no dispatcher".to_string())
    }

    fn load(&mut self, alias: &str, path: &str) -> Result<(), String> {
        match &self.refuse {
            Some(e) => Err(e.clone()),
            None => {
                self.loaded.push((alias.to_string(), path.to_string()));
                Ok(())
            },
        }
    }
}

fn configured(src: &str) -> Interpreter {
    let ast = parse(src).expect("the source parses");
    let mut interp = Interpreter::new();
    let mut calls = PluginCalls::new(Loader::default());
    interp.interpret(&ast, &mut calls).expect("the server is configured");
    interp
}

fn ask(interp: &Interpreter, method: &str, path: &str) -> Result<Response, Fault> {
    let mut sv = Services::new(NoObjects, NoFunctions);
    interp.handle_request::<Thing, NoObjects, NoFunctions>(method, path, StrMap::new(), StrMap::new(), HttpBodyVariant::Empty, &mut sv, 1000)
}

#[test]
fn fitting_route_runs_on_a_fresh_response() {
    let interp = configured(r#"route "/hello/{name}" GET { val a = 1; };"#);
    let resp = ask(&interp, "GET", "/hello/world").unwrap();
    assert_eq!(resp.status, 200);
    assert_eq!(resp.body, None);
    assert!(!resp.is_sent);
}

#[test]
fn unknown_path_or_method_is_not_found() {
    let interp = configured(r#"route "/hello" GET { val a = 1; };"#);
    for (m, p) in [("GET", "/other"), ("POST", "/hello")] {
        let resp = ask(&interp, m, p).unwrap();
        assert_eq!(resp.status, 404);
        assert_eq!(resp.body, Some("Not Found".to_string()));
        assert!(resp.is_sent);
        assert_eq!(resp.headers.get("Content-Type").map(|s| s.as_str()), Some("text/plain; charset=utf-8"));
    }
}

#[test]
fn unhandled_route_error_is_500() {
    let interp = configured(r#"route "/x" GET { val b = missing; };"#);
    let resp = ask(&interp, "GET", "/x").unwrap();
    assert_eq!(resp.status, 500);
    assert!(resp.body.as_ref().unwrap().starts_with("Internal Server Error: "));
    assert!(resp.is_sent);
}

#[test]
fn route_and_global_handlers_take_the_error() {
    let interp = configured(r#"route "/x" GET { val b = missing; } onError(e) { val c = e; };"#);
    assert!(interp.routes[0].2.error_handler.is_some());
    let resp = ask(&interp, "GET", "/x").unwrap();
    assert_eq!(resp.status, 200);
    assert!(!resp.is_sent);

    let interp = configured(r#"global_error_handler(err) { val c = err; }; route "/y" GET { val b = missing; };"#);
    assert!(interp.global_error_handler.is_some());
    let resp = ask(&interp, "GET", "/y").unwrap();
    assert_eq!(resp.status, 200);
    assert!(!resp.is_sent);
}

#[test]
fn endless_loop_is_a_fault() {
    let mut interp = Interpreter::new();
    let always = Box::new(AstNode::ArrayAccess {
        array: Box::new(AstNode::StringLiteral("[true]".to_string())),
        index: Box::new(AstNode::NumberLiteral(0)),
    });
    let body = Box::new(AstNode::VarDeclaration { name: "a".to_string(), value: Box::new(AstNode::NumberLiteral(1)) });
    let spin = Box::new(AstNode::WhileLoop { condition: always, body });
    interp.add_route("/spin".to_string(), "GET".to_string(), RouteHandler::new(vec![spin], None));
    let mut sv = Services::new(NoObjects, NoFunctions);
    let r = interp.handle_request::<Thing, NoObjects, NoFunctions>("GET", "/spin", StrMap::new(), StrMap::new(), HttpBodyVariant::Empty, &mut sv, 5);
    assert!(matches!(r, Err(Fault::LoopLimit)));
}

#[test]
fn same_method_and_path_replace_the_route() {
    let interp = configured(r#"route "/a" GET { val x = 1; }; route "/b" GET { val y = 2; }; route "/a" GET { val z = 3; val w = 4; };"#);
    assert_eq!(interp.routes.len(), 2);
    assert_eq!(interp.routes[0].0, "GET:/a");
    assert_eq!(interp.routes[0].2.actions.len(), 2);
    assert_eq!(interp.routes[1].0, "GET:/b");
}

#[test]
fn imports_load_plugins() {
    let ast = parse(r#"import "libmath.so" as math; route "/x" GET { val a = 1; };"#).unwrap();
    let mut interp = Interpreter::new();
    let mut calls = PluginCalls::new(Loader::default());
    assert_eq!(interp.interpret(&ast, &mut calls), Ok(()));
    assert!(interp.has_plugin("math"));
    assert!(!interp.has_plugin("other"));
    assert_eq!(calls.host().loaded, vec![("math".to_string(), "libmath.so".to_string())]);

    let mut interp = Interpreter::new();
    let mut calls = PluginCalls::new(Loader { refuse: Some("no such file".to_string()), ..Loader::default() });
    assert_eq!(interp.interpret(&ast, &mut calls), Err("no such file".to_string()));
    assert!(interp.routes.is_empty());
}

#[test]
fn server_settings_are_kept() {
    let interp = configured(r#"tls { enabled = true; cert_path = "c.pem"; key_path = "k.pem"; }; route "/x" GET { val a = 1; };"#);
    let tls = interp.tls_config.as_ref().unwrap();
    assert!(tls.enabled);
    assert_eq!(tls.cert_path, "c.pem");
    assert_eq!(tls.key_path, "k.pem");
    assert_eq!(interp.routes.len(), 1);
}

#[test]
fn other_top_level_node_is_refused() {
    let mut interp = Interpreter::new();
    let mut calls = PluginCalls::new(Loader::default());
    let r = interp.interpret(&AstNode::NumberLiteral(3), &mut calls);
    assert!(r.unwrap_err().starts_with("Ожидается Program или ServerConfig на верхнем уровне, получено: "));

    let executor = Executor::new();
    let stray = AstNode::Program(vec![Box::new(AstNode::NumberLiteral(1))]);
    let r = executor.execute_ast(&stray, &mut interp, &mut calls);
    assert!(r.unwrap_err().starts_with("Неожиданный тип узла в основном цикле обработки: "));
}

#[test]
fn handlers_built_by_hand() {
    let mut interp = Interpreter::new();
    interp.add_route("/h".to_string(), "GET".to_string(), RouteHandler::new(vec![], None));
    interp.set_configuration("http".to_string(), "127.0.0.1".to_string(), "8080".to_string());
    assert_eq!(interp.routes[0].0, "GET:/h");
    assert_eq!(interp.configuration.as_ref().unwrap().port, "8080");
    let resp = ask(&interp, "GET", "/h").unwrap();
    assert_eq!(resp.status, 200);
}
