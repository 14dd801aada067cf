use netter::language::ast::{AstNode, AstVisitor};
use netter::language::visit::Visits;

#[derive(Default)]
struct Names {
    seen: Vec<String>,
}

impl Names {
    fn note(&mut self, what: String) -> Result<String, ()> {
        self.seen.push(what.clone());
        Ok(what)
    }
}

impl AstVisitor<String> for Names {
    type Error = ();
    fn visit_program(&mut self, statements: &[Box<AstNode>]) -> Result<String, ()> {
        self.note(format!("program {}", statements.len()))
    }
    fn visit_route(&mut self, path: &str, method: &str, _body: &AstNode, on_error: Option<&AstNode>) -> Result<String, ()> {
        self.note(format!("route {} {} {}", method, path, on_error.is_some()))
    }
    fn visit_block(&mut self, statements: &[Box<AstNode>]) -> Result<String, ()> {
        self.note(format!("block {}", statements.len()))
    }
    fn visit_var_declaration(&mut self, name: &str, _value: &AstNode) -> Result<String, ()> {
        self.note(format!("val {}", name))
    }
    fn visit_function_call(&mut self, object: Option<&AstNode>, name: &str, args: &[Box<AstNode>], try_op: bool, unwrap_op: bool) -> Result<String, ()> {
        self.note(format!("call {} {} {} {} {}", object.is_some(), name, args.len(), try_op, unwrap_op))
    }
    fn visit_property_access(&mut self, _object: &AstNode, property: &str) -> Result<String, ()> {
        self.note(format!("property {}", property))
    }
    fn visit_if_statement(&mut self, _condition: &AstNode, _then_branch: &AstNode, else_branch: Option<&AstNode>) -> Result<String, ()> {
        self.note(format!("if {}", else_branch.is_some()))
    }
    fn visit_string_literal(&mut self, value: &str) -> Result<String, ()> {
        self.note(format!("string {}", value))
    }
    fn visit_number_literal(&mut self, value: i64) -> Result<String, ()> {
        self.note(format!("number {}", value))
    }
    fn visit_identifier(&mut self, name: &str) -> Result<String, ()> {
        self.note(format!("identifier {}", name))
    }
    fn visit_binary_op(&mut self, _left: &AstNode, operator: &str, _right: &AstNode) -> Result<String, ()> {
        self.note(format!("binary {}", operator))
    }
    fn visit_tls_config(&mut self, enabled: bool, cert_path: &str, key_path: &str) -> Result<String, ()> {
        self.note(format!("tls {} {} {}", enabled, cert_path, key_path))
    }
    fn visit_server_config(&mut self, routes: &[Box<AstNode>], tls_config: Option<&AstNode>, global_error_handler: Option<&AstNode>, config_block: Option<&AstNode>) -> Result<String, ()> {
        self.note(format!("server {} {} {} {}", routes.len(), tls_config.is_some(), global_error_handler.is_some(), config_block.is_some()))
    }
    fn visit_global_error_handler(&mut self, error_var: &str, _body: &AstNode) -> Result<String, ()> {
        self.note(format!("global {}", error_var))
    }
    fn visit_error_handler_block(&mut self, error_var: &str, _body: &AstNode) -> Result<String, ()> {
        self.note(format!("on_error {}", error_var))
    }
    fn visit_config_block(&mut self, config_type: &str, host: &str, port: &str) -> Result<String, ()> {
        self.note(format!("config {} {} {}", config_type, host, port))
    }
    fn visit_import(&mut self, path: &str, alias: &str) -> Result<String, ()> {
        self.note(format!("import {} {}", path, alias))
    }
    fn visit_while_loop(&mut self, _condition: &AstNode, _body: &AstNode) -> Result<String, ()> {
        self.note("while".to_string())
    }
    fn visit_for_loop(&mut self, var_name: &str, _iterable: &AstNode, _body: &AstNode) -> Result<String, ()> {
        self.note(format!("for {}", var_name))
    }
    fn visit_array_literal(&mut self, values: &[Box<AstNode>]) -> Result<String, ()> {
        self.note(format!("array {}", values.len()))
    }
    fn visit_array_access(&mut self, _array: &AstNode, _index: &AstNode) -> Result<String, ()> {
        self.note("index".to_string())
    }
}

fn num(n: i64) -> Box<AstNode> {
    Box::new(AstNode::NumberLiteral(n))
}

#[test]
fn accept_calls_the_method_of_the_node_kind() {
    let nodes = vec![
        AstNode::Program(vec![num(1), num(2)]),
        AstNode::Route { path: "/a".to_string(), method: "GET".to_string(), body: num(0), on_error: None },
        AstNode::VarDeclaration { name: "x".to_string(), value: num(3) },
        AstNode::FunctionCall { object: Some(num(0)), name: "f".to_string(), args: vec![num(1)], try_operator: true, unwrap_operator: false },
        AstNode::NumberLiteral(42),
        AstNode::Import { path: "p.so".to_string(), alias: "p".to_string() },
        AstNode::ConfigBlock { config_type: "http".to_string(), host: "h".to_string(), port: "80".to_string() },
        AstNode::ArrayAccess { array: num(1), index: num(0) },
    ];
    let expected = [
        "program 2",
        "route GET /a false",
        "val x",
        "call true f 1 true false",
        "number 42",
        "import p.so p",
        "config http h 80",
        "index",
    ];
    let mut visits = Visits::new(Names::default());
    for (node, want) in nodes.iter().zip(expected.iter()) {
        assert_eq!(node.accept(&mut visits), Ok(want.to_string()));
    }
    let names = visits.into_visitor();
    assert_eq!(names.seen, expected.iter().map(|s| s.to_string()).collect::<Vec<_>>());
}
